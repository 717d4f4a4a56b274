//! Rules of the Ollama HTTP API client.
use vstd::prelude::*;
use vstd::utf8::encode_utf8;

use crate::error::{StackError, config_error_str, is_config_error};
use crate::text::{chars_to_string, concat_strs, slice_chars, str_to_chars, trim, trim_chars, views};
use crate::sort::{KeyView, SortKey, key_view, key_views, stable_sort, stably_sorted};
use crate::types::{InstalledModel, RunningModel};

verus! {

/// `char::is_control`: the C0 and C1 control characters.
pub open spec fn is_control(c: char) -> bool {
    (c as u32) <= 0x1f || (0x7f <= (c as u32) && (c as u32) <= 0x9f)
}

/// A model name that may be sent to Ollama: visible text of at most 240
/// bytes without control characters.
pub open spec fn model_name_valid(model: Seq<char>) -> bool {
    &&& trim(model).len() > 0
    &&& encode_utf8(model).len() <= 240
    &&& forall|i: int| 0 <= i < model.len() ==> !is_control(#[trigger] model[i])
}

pub fn validate_model_name(model: &str) -> (r: Result<(), StackError>)
    ensures
        match r {
            Ok(()) => model_name_valid(model@),
            Err(e) => !model_name_valid(model@) && is_config_error(e, "invalid model name"@),
        },
{
    let chars = str_to_chars(model);
    let trimmed = trim_chars(&chars);
    if trimmed.len() == 0 || model.as_bytes().len() > 240 {
        return Err(config_error_str("invalid model name"));
    }
    let mut i: usize = 0;
    while i < chars.len()
        invariant
            chars@ == model@,
            i <= chars.len(),
            forall|j: int| 0 <= j < i ==> !is_control(#[trigger] chars@[j]),
        decreases chars.len() - i,
    {
        let c = chars[i];
        let u = c as u32;
        if u <= 0x1f || (0x7f <= u && u <= 0x9f) {
            assert(is_control(chars@[i as int]));
            return Err(config_error_str("invalid model name"));
        }
        i = i + 1;
    }
    Ok(())
}

/// `trim_end_matches('/')`.
pub open spec fn trim_trailing_slashes(s: Seq<char>) -> Seq<char>
    decreases s.len(),
{
    if s.len() > 0 && s.last() == '/' {
        trim_trailing_slashes(s.drop_last())
    } else {
        s
    }
}

/// The base URL of the API without trailing slashes.
pub fn normalize_base_url(base_url: &str) -> (r: String)
    ensures
        r@ == trim_trailing_slashes(base_url@),
{
    let chars = str_to_chars(base_url);
    let mut end = chars.len();
    assert(chars@.subrange(0, end as int) =~= chars@);
    while end > 0 && chars[end - 1] == '/'
        invariant
            end <= chars.len(),
            trim_trailing_slashes(chars@) == trim_trailing_slashes(chars@.subrange(0, end as int)),
        decreases end,
    {
        assert(chars@.subrange(0, end as int).drop_last() =~= chars@.subrange(0, end - 1));
        end = end - 1;
    }
    let kept = slice_chars(&chars, 0, end);
    chars_to_string(&kept)
}

/// The address of one API endpoint below the base URL.
pub fn endpoint(base_url: &str, path: &str) -> (r: String)
    ensures
        r@ == base_url@ + path@,
{
    concat_strs(base_url, path)
}

/// Orders the models of a listing by name (`sort_by` on names, which keeps
/// equal names in their order).
pub open spec fn name_keys(names: Seq<Seq<char>>) -> Seq<KeyView> {
    names.map_values(|n: Seq<char>| (0u64, None::<u64>, n))
}

pub open spec fn installed_names(ms: Seq<InstalledModel>) -> Seq<Seq<char>> {
    ms.map_values(|m: InstalledModel| m.name@)
}

pub open spec fn running_names(ms: Seq<RunningModel>) -> Seq<Seq<char>> {
    ms.map_values(|m: RunningModel| m.name@)
}

fn name_sort_keys(names: &Vec<Vec<char>>) -> (r: Vec<SortKey>)
    ensures
        key_views(r@) == name_keys(views(names@)),
{
    let mut keys: Vec<SortKey> = Vec::new();
    let mut i: usize = 0;
    while i < names.len()
        invariant
            i <= names.len(),
            key_views(keys@) == name_keys(views(names@)).take(i as int),
        decreases names.len() - i,
    {
        let k = SortKey { primary: 0, secondary: None, tertiary: names[i].clone() };
        let ghost kb = key_views(keys@);
        keys.push(k);
        assert(key_views(keys@) =~= kb.push(key_view(k)));
        assert(name_keys(views(names@)).take(i + 1) =~= name_keys(views(names@)).take(i as int).push(
            (0u64, None::<u64>, names@[i as int]@),
        ));
        i = i + 1;
    }
    assert(name_keys(views(names@)).take(names.len() as int) =~= name_keys(views(names@)));
    keys
}

/// The installed models ordered by name.
pub fn sort_installed_models(models: Vec<InstalledModel>) -> (r: Vec<InstalledModel>)
    ensures
        r@ == stably_sorted(models@, name_keys(installed_names(models@))),
{
    let mut names: Vec<Vec<char>> = Vec::new();
    let mut i: usize = 0;
    while i < models.len()
        invariant
            i <= models.len(),
            views(names@) == installed_names(models@).take(i as int),
        decreases models.len() - i,
    {
        let ghost nb = views(names@);
        let n = str_to_chars(models[i].name.as_str());
        names.push(n);
        assert(views(names@) =~= nb.push(n@));
        assert(installed_names(models@).take(i + 1) =~= installed_names(models@).take(i as int).push(
            models@[i as int].name@,
        ));
        i = i + 1;
    }
    assert(installed_names(models@).take(models.len() as int) =~= installed_names(models@));
    let keys = name_sort_keys(&names);
    assert(key_views(keys@).len() == keys@.len());
    stable_sort(models, &keys)
}

/// The running models ordered by name.
pub fn sort_running_models(models: Vec<RunningModel>) -> (r: Vec<RunningModel>)
    ensures
        r@ == stably_sorted(models@, name_keys(running_names(models@))),
{
    let mut names: Vec<Vec<char>> = Vec::new();
    let mut i: usize = 0;
    while i < models.len()
        invariant
            i <= models.len(),
            views(names@) == running_names(models@).take(i as int),
        decreases models.len() - i,
    {
        let ghost nb = views(names@);
        let n = str_to_chars(models[i].name.as_str());
        names.push(n);
        assert(views(names@) =~= nb.push(n@));
        assert(running_names(models@).take(i + 1) =~= running_names(models@).take(i as int).push(
            models@[i as int].name@,
        ));
        i = i + 1;
    }
    assert(running_names(models@).take(models.len() as int) =~= running_names(models@));
    let keys = name_sort_keys(&names);
    assert(key_views(keys@).len() == keys@.len());
    stable_sort(models, &keys)
}

} // verus!
