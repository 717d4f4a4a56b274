//! Reading the GPU table that `nvidia-smi` prints.
use vstd::prelude::*;

use crate::text::{chars_to_string, lines, lines_of, parse_u64, parse_u64_chars, split_char, split_on_char, str_to_chars, trim, trim_chars, views};
use crate::types::GpuSnapshot;

verus! {

/// The values of one GPU row: name, driver, total, used and free MiB.
pub open spec fn gpu_view(g: GpuSnapshot) -> (Seq<char>, Seq<char>, u64, u64, u64) {
    (g.name@, g.driver_version@, g.memory_total_mib, g.memory_used_mib, g.memory_free_mib)
}

pub open spec fn trimmed_fields(line: Seq<char>) -> Seq<Seq<char>> {
    split_char(line, ',').map_values(|f: Seq<char>| trim(f))
}

/// A line of `--format=csv,noheader,nounits` output: exactly five
/// comma-separated fields, the last three of them integers.
pub open spec fn gpu_row(line: Seq<char>) -> Option<(Seq<char>, Seq<char>, u64, u64, u64)> {
    let f = trimmed_fields(line);
    if f.len() != 5 {
        None
    } else {
        match (parse_u64(f[2]), parse_u64(f[3]), parse_u64(f[4])) {
            (Some(total), Some(used), Some(free)) => Some((f[0], f[1], total, used, free)),
            _ => None,
        }
    }
}

/// The well-formed rows, in order; malformed rows are left out.
pub open spec fn gpu_rows(ls: Seq<Seq<char>>) -> Seq<(Seq<char>, Seq<char>, u64, u64, u64)>
    decreases ls.len(),
{
    if ls.len() == 0 {
        Seq::empty()
    } else {
        let prev = gpu_rows(ls.drop_last());
        match gpu_row(ls.last()) {
            Some(row) => prev.push(row),
            None => prev,
        }
    }
}

fn parse_gpu_line(line: &Vec<char>) -> (r: Option<GpuSnapshot>)
    ensures
        match r {
            Some(g) => gpu_row(line@) == Some(gpu_view(g)),
            None => gpu_row(line@) is None,
        },
{
    let raw = split_on_char(line, ',');
    if raw.len() != 5 {
        return None;
    }
    let ghost f = trimmed_fields(line@);
    let f0 = trim_chars(&raw[0]);
    let f1 = trim_chars(&raw[1]);
    let f2 = trim_chars(&raw[2]);
    let f3 = trim_chars(&raw[3]);
    let f4 = trim_chars(&raw[4]);
    assert(f0@ == f[0] && f1@ == f[1] && f2@ == f[2] && f3@ == f[3] && f4@ == f[4]);
    let total = match parse_u64_chars(&f2) {
        Some(v) => v,
        None => return None,
    };
    let used = match parse_u64_chars(&f3) {
        Some(v) => v,
        None => return None,
    };
    let free = match parse_u64_chars(&f4) {
        Some(v) => v,
        None => return None,
    };
    Some(
        GpuSnapshot {
            name: chars_to_string(&f0),
            driver_version: chars_to_string(&f1),
            memory_total_mib: total,
            memory_used_mib: used,
            memory_free_mib: free,
        },
    )
}

/// Parses `nvidia-smi --query-gpu=name,driver_version,memory.total,memory.used,memory.free`.
pub fn parse_nvidia_csv(value: &str) -> (r: Vec<GpuSnapshot>)
    ensures
        r@.map_values(|g: GpuSnapshot| gpu_view(g)) == gpu_rows(lines(value@)),
{
    let chars = str_to_chars(value);
    let ls = lines_of(&chars);
    let ghost lv = views(ls@);
    let mut out: Vec<GpuSnapshot> = Vec::new();
    let mut i: usize = 0;
    assert(lv.take(0) =~= Seq::<Seq<char>>::empty());
    while i < ls.len()
        invariant
            i <= ls.len(),
            lv == views(ls@),
            lv == lines(value@),
            out@.map_values(|g: GpuSnapshot| gpu_view(g)) == gpu_rows(lv.take(i as int)),
        decreases ls.len() - i,
    {
        assert(lv.take(i + 1).drop_last() =~= lv.take(i as int));
        assert(lv.take(i + 1).last() == ls@[i as int]@);
        let ghost before = out@.map_values(|g: GpuSnapshot| gpu_view(g));
        match parse_gpu_line(&ls[i]) {
            Some(g) => {
                out.push(g);
                assert(out@.map_values(|g: GpuSnapshot| gpu_view(g)) =~= before.push(
                    gpu_view(out@.last()),
                ));
            },
            None => {},
        }
        i = i + 1;
    }
    assert(lv.take(ls.len() as int) =~= lv);
    out
}

} // verus!
