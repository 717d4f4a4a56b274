//! Verified runtime downloads: artifact rules, streaming size and checksum
//! accounting, and the extraction budget of an archive.
use vstd::prelude::*;
use vstd::utf8::encode_utf8;
use sha2::Digest;

use crate::error::{StackError, config_error, config_error_str, is_config_error};
use crate::paths::{PathPart, drive_prefix, has_drive_prefix, slashed, slashed_chars, win_components, collect_path, collect_pieces, components, is_normal, part_views, path_components, starts_with_root};
use crate::text::{append_chars, append_str, ascii_lower, ascii_lower_char, chars_eq, chars_to_string, concat_strs, contains, decimal, split_char, split_on_char, str_eq, str_to_chars, u64_chars};
use crate::types::ServiceKind;
use crate::url::{parse_url, url_parse_result};

verus! {

/// A runtime archive published by the runtime's project.
#[derive(Debug, Clone)]
pub struct RuntimeArtifact {
    pub kind: ServiceKind,
    pub os: String,
    pub arch: String,
    pub version: String,
    pub url: String,
    pub archive_format: String,
    pub sha256: String,
    pub download_size: u64,
    pub maximum_extracted_size: u64,
    pub executable_relative_path: String,
}

#[derive(Debug, Clone)]
pub struct RuntimeInstallProgress {
    pub kind: ServiceKind,
    pub stage: String,
    pub completed: u64,
    pub total: u64,
    pub message: String,
}

/// Progress steps are reported at least this many bytes apart.
pub const PROGRESS_INTERVAL_BYTES: u64 = 8388608;

pub fn progress(artifact: &RuntimeArtifact, stage: &str, completed: u64, message: &str) -> (r:
    RuntimeInstallProgress)
    ensures
        r.kind == artifact.kind,
        r.stage@ == stage@,
        r.completed == completed,
        r.total == artifact.download_size,
        r.message@ == message@,
{
    RuntimeInstallProgress {
        kind: artifact.kind,
        stage: String::from_str(stage),
        completed,
        total: artifact.download_size,
        message: String::from_str(message),
    }
}

pub open spec fn is_hex_byte(b: u8) -> bool {
    (48 <= b && b <= 57) || (65 <= b && b <= 70) || (97 <= b && b <= 102)
}

/// Sixty-four hexadecimal digits.
pub open spec fn sha256_text_valid(s: Seq<char>) -> bool {
    let b = encode_utf8(s);
    b.len() == 64 && forall|i: int| 0 <= i < b.len() ==> is_hex_byte(#[trigger] b[i])
}

fn sha256_text_ok(s: &str) -> (r: bool)
    ensures
        r == sha256_text_valid(s@),
{
    if s.len() != 64 {
        return false;
    }
    let bytes = s.as_bytes();
    let mut i: usize = 0;
    while i < bytes.len()
        invariant
            bytes@ == encode_utf8(s@),
            i <= bytes.len(),
            forall|j: int| 0 <= j < i ==> is_hex_byte(#[trigger] bytes@[j]),
        decreases bytes.len() - i,
    {
        let b = bytes[i];
        if !((48 <= b && b <= 57) || (65 <= b && b <= 70) || (97 <= b && b <= 102)) {
            assert(!is_hex_byte(bytes@[i as int]));
            return false;
        }
        i = i + 1;
    }
    true
}

/// The path that collecting the `/`-separated pieces of a manifest path gives.
pub open spec fn manifest_path(value: Seq<char>) -> Seq<char> {
    collect_pieces(split_char(value, '/'))
}

/// A manifest path names a file below the release: not empty, not absolute
/// (no leading separator, no drive prefix), made of normal components only,
/// with either separator.
pub open spec fn release_path_valid(p: Seq<char>) -> bool {
    &&& p.len() > 0
    &&& !starts_with_root(slashed(p))
    &&& !drive_prefix(p)
    &&& forall|i: int| 0 <= i < win_components(p).len() ==> is_normal(#[trigger] win_components(p)[i])
}

pub open spec fn release_path_message() -> Seq<char> {
    "runtime artifact path must remain inside its release"@
}

pub fn portable_relative_path(value: &str) -> (r: Result<String, StackError>)
    ensures
        match r {
            Ok(p) => p@ == manifest_path(value@) && release_path_valid(p@),
            Err(e) => !release_path_valid(manifest_path(value@)) && is_config_error(
                e,
                release_path_message(),
            ),
        },
{
    let chars = str_to_chars(value);
    let pieces = split_on_char(&chars, '/');
    let path = collect_path(&pieces);
    let q = slashed_chars(&path);
    if path.len() == 0 || q[0] == '/' || has_drive_prefix(&path) {
        return Err(config_error_str("runtime artifact path must remain inside its release"));
    }
    let comps = path_components(&q);
    let mut i: usize = 0;
    while i < comps.len()
        invariant
            i <= comps.len(),
            path@ == manifest_path(value@),
            path@.len() > 0,
            !starts_with_root(slashed(path@)),
            !drive_prefix(path@),
            part_views(comps@) == win_components(path@),
            forall|j: int| 0 <= j < i ==> is_normal(#[trigger] win_components(path@)[j]),
        decreases comps.len() - i,
    {
        match &comps[i] {
            PathPart::Normal(_) => {},
            _ => {
                assert(!is_normal(win_components(path@)[i as int]));
                return Err(config_error_str("runtime artifact path must remain inside its release"));
            },
        }
        i = i + 1;
    }
    Ok(chars_to_string(&path))
}

/// The first rule that an artifact breaks: an official `https://github.com`
/// URL, a ZIP archive, a SHA-256 digest, and an executable path inside the
/// release.
pub open spec fn artifact_problem(a: RuntimeArtifact) -> Option<Seq<char>> {
    match url_parse_result(a.url@) {
        Err(e) => Some("runtime artifact URL is invalid: "@ + e),
        Ok(p) => if p.0 != "https"@ || p.1 != Some("github.com"@) {
            Some("runtime artifacts must use an official github.com HTTPS URL"@)
        } else if a.archive_format@ != "zip"@ {
            Some("unsupported runtime archive format: "@ + a.archive_format@)
        } else if !sha256_text_valid(a.sha256@) {
            Some("runtime artifact SHA-256 is invalid"@)
        } else if !release_path_valid(manifest_path(a.executable_relative_path@)) {
            Some(release_path_message())
        } else {
            None
        },
    }
}

pub fn validate_artifact(artifact: &RuntimeArtifact) -> (r: Result<(), StackError>)
    ensures
        match r {
            Ok(()) => artifact_problem(*artifact) is None,
            Err(e) => artifact_problem(*artifact) matches Some(m) && is_config_error(e, m),
        },
{
    let url = match parse_url(artifact.url.as_str()) {
        Err(error) => {
            return Err(config_error(concat_strs("runtime artifact URL is invalid: ", error.as_str())));
        },
        Ok(u) => u,
    };
    let official = str_eq(url.scheme.as_str(), "https") && match &url.host {
        Some(h) => str_eq(h.as_str(), "github.com"),
        None => false,
    };
    if !official {
        return Err(config_error_str("runtime artifacts must use an official github.com HTTPS URL"));
    }
    if !str_eq(artifact.archive_format.as_str(), "zip") {
        return Err(
            config_error(
                concat_strs("unsupported runtime archive format: ", artifact.archive_format.as_str()),
            ),
        );
    }
    if !sha256_text_ok(artifact.sha256.as_str()) {
        return Err(config_error_str("runtime artifact SHA-256 is invalid"));
    }
    match portable_relative_path(artifact.executable_relative_path.as_str()) {
        Err(e) => Err(e),
        Ok(_) => Ok(()),
    }
}

// ----- streaming digest -----
/// An incremental SHA-256 computation (`sha2::Sha256`). That type is an alias
/// of `digest`'s generic core wrappers, whose `typenum` trait bounds Verus
/// cannot declare, so the hasher is held opaquely here and described by the
/// bytes it has been fed (`hashed_bytes`).
#[verifier::external_body]
pub struct Sha256Stream {
    inner: sha2::Sha256,
}

/// The bytes fed to a digest computation so far.
pub uninterp spec fn hashed_bytes(stream: Sha256Stream) -> Seq<u8>;

/// Lower-case hexadecimal text of the SHA-256 digest of some bytes.
pub uninterp spec fn sha256_hex(data: Seq<u8>) -> Seq<char>;

/// `Sha256::new`: a computation that has seen no bytes.
#[verifier::external_body]
pub fn sha256_start() -> (r: Sha256Stream)
    ensures
        hashed_bytes(r) == Seq::<u8>::empty(),
{
    Sha256Stream { inner: sha2::Sha256::new() }
}

/// `Digest::update`: the chunk is appended to the bytes seen.
#[verifier::external_body]
pub fn sha256_update(stream: &mut Sha256Stream, chunk: &[u8])
    ensures
        hashed_bytes(*final(stream)) == hashed_bytes(*old(stream)) + chunk@,
{
    stream.inner.update(chunk);
}

/// `Digest::finalize` printed with `{:x}`.
#[verifier::external_body]
pub fn sha256_finish(stream: Sha256Stream) -> (r: String)
    ensures
        r@ == sha256_hex(hashed_bytes(stream)),
{
    format!("{:x}", stream.inner.finalize())
}

/// The free space an installation needs: the archive and everything it may
/// extract to; an error when that does not fit in 64 bits.
pub fn required_space(artifact: &RuntimeArtifact) -> (r: Result<u64, StackError>)
    ensures
        match r {
            Ok(n) => n == artifact.download_size + artifact.maximum_extracted_size,
            Err(e) => artifact.download_size + artifact.maximum_extracted_size > u64::MAX
                && is_config_error(e, "runtime disk-space requirement overflowed"@),
        },
{
    match artifact.download_size.checked_add(artifact.maximum_extracted_size) {
        Some(n) => Ok(n),
        None => Err(config_error_str("runtime disk-space requirement overflowed")),
    }
}

/// Refuses an installation when less space is free than it needs.
pub fn space_check(available: u64, required: u64) -> (r: Result<(), StackError>)
    ensures
        match r {
            Ok(()) => available >= required,
            Err(e) => available < required && is_config_error(
                e,
                "managed runtime installation requires "@ + decimal(required as nat)
                    + " free bytes, but only "@ + decimal(available as nat) + " are available"@,
            ),
        },
{
    if available < required {
        let mut m = str_to_chars("managed runtime installation requires ");
        append_chars(&mut m, &u64_chars(required));
        append_str(&mut m, " free bytes, but only ");
        append_chars(&mut m, &u64_chars(available));
        append_str(&mut m, " are available");
        return Err(config_error(chars_to_string(&m)));
    }
    Ok(())
}

/// Refuses a download whose announced length differs from the manifest's
/// size; a server that announces no length is accepted.
pub fn length_check(reported: Option<u64>, artifact: &RuntimeArtifact) -> (r: Result<(), StackError>)
    ensures
        match r {
            Ok(()) => reported is None || reported == Some(artifact.download_size),
            Err(e) => reported matches Some(n) && n != artifact.download_size && is_config_error(
                e,
                "runtime download size changed: manifest expects "@ + decimal(artifact.download_size as nat)
                    + ", server reports "@ + decimal(n as nat),
            ),
        },
{
    match reported {
        Some(n) => if n != artifact.download_size {
            let mut m = str_to_chars("runtime download size changed: manifest expects ");
            append_chars(&mut m, &u64_chars(artifact.download_size));
            append_str(&mut m, ", server reports ");
            append_chars(&mut m, &u64_chars(n));
            Err(config_error(chars_to_string(&m)))
        } else {
            Ok(())
        },
        None => Ok(()),
    }
}

/// Size and checksum accounting of one streamed download.
pub struct DownloadCheck {
    expected_size: u64,
    completed: u64,
    last_reported: u64,
    digest: Sha256Stream,
    received: Ghost<Seq<u8>>,
}

impl DownloadCheck {
    /// The bytes accepted so far.
    pub closed spec fn received(&self) -> Seq<u8> {
        self.received@
    }

    pub closed spec fn expected_size(&self) -> u64 {
        self.expected_size
    }

    pub closed spec fn last_reported(&self) -> u64 {
        self.last_reported
    }

    #[verifier::type_invariant]
    closed spec fn wf(&self) -> bool {
        &&& self.completed == self.received@.len()
        &&& self.completed <= self.expected_size
        &&& self.last_reported <= self.completed
        &&& hashed_bytes(self.digest) == self.received@
    }

    pub fn new(expected_size: u64) -> (r: Self)
        ensures
            r.received() == Seq::<u8>::empty(),
            r.expected_size() == expected_size,
            r.last_reported() == 0,
    {
        DownloadCheck {
            expected_size,
            completed: 0,
            last_reported: 0,
            digest: sha256_start(),
            received: Ghost(Seq::empty()),
        }
    }

    pub fn completed(&self) -> (r: u64)
        ensures
            r == self.received().len(),
    {
        proof {
            use_type_invariant(self);
        }
        self.completed
    }

    /// Accepts one chunk of the body. Refuses a chunk that would take the
    /// download past its announced size; answers whether a progress step is
    /// due (at least `PROGRESS_INTERVAL_BYTES` since the last one).
    pub fn accept_chunk(&mut self, chunk: &[u8]) -> (r: Result<bool, StackError>)
        ensures
            final(self).expected_size() == old(self).expected_size(),
            match r {
                Ok(report) => {
                    &&& old(self).received().len() + chunk@.len() <= old(self).expected_size()
                    &&& final(self).received() == old(self).received() + chunk@
                    &&& report == (final(self).received().len() - old(self).last_reported()
                        >= PROGRESS_INTERVAL_BYTES)
                    &&& final(self).last_reported() == if report {
                        final(self).received().len() as u64
                    } else {
                        old(self).last_reported()
                    }
                },
                Err(e) => {
                    &&& old(self).received().len() + chunk@.len() > old(self).expected_size()
                    &&& (is_config_error(e, "runtime download size overflowed"@)
                        || is_config_error(e, "runtime download exceeded the manifest size"@))
                },
            },
    {
        proof {
            use_type_invariant(&*self);
        }
        let length = chunk.len() as u64;
        if self.completed > u64::MAX - length {
            return Err(config_error_str("runtime download size overflowed"));
        }
        let next = self.completed + length;
        if next > self.expected_size {
            return Err(config_error_str("runtime download exceeded the manifest size"));
        }
        let mut current = DownloadCheck::new(0);
        std::mem::swap(self, &mut current);
        proof {
            use_type_invariant(&current);
        }
        let DownloadCheck { expected_size, completed, last_reported, digest, received } = current;
        let mut digest = digest;
        sha256_update(&mut digest, chunk);
        let report = next - last_reported >= PROGRESS_INTERVAL_BYTES;
        *self = DownloadCheck {
            expected_size,
            completed: next,
            last_reported: if report {
                next
            } else {
                last_reported
            },
            digest,
            received: Ghost(received@ + chunk@),
        };
        Ok(report)
    }

    /// Whether every announced byte has arrived, with the error the
    /// download reports when it has not.
    pub fn check_complete(&self) -> (r: Result<(), StackError>)
        ensures
            match r {
                Ok(()) => self.received().len() == self.expected_size(),
                Err(e) => self.received().len() != self.expected_size() && is_config_error(
                    e,
                    "runtime download is incomplete: received "@ + decimal(
                        self.received().len(),
                    ) + " of "@ + decimal(self.expected_size() as nat) + " bytes"@,
                ),
            },
    {
        proof {
            use_type_invariant(&self);
        }
        if self.completed != self.expected_size {
            let mut m = str_to_chars("runtime download is incomplete: received ");
            append_chars(&mut m, &u64_chars(self.completed));
            append_str(&mut m, " of ");
            append_chars(&mut m, &u64_chars(self.expected_size));
            append_str(&mut m, " bytes");
            return Err(config_error(chars_to_string(&m)));
        }
        Ok(())
    }

    /// Completes the download: every announced byte arrived and the digest
    /// of the bytes equals the manifest's digest (compared in lower case).
    pub fn finish(self, expected_sha256: &str) -> (r: Result<(), StackError>)
        ensures
            match r {
                Ok(()) => self.received().len() == self.expected_size() && sha256_hex(
                    self.received(),
                ) == expected_sha256@.map_values(|c: char| ascii_lower(c)),
                Err(e) => self.received().len() != self.expected_size() && is_config_error(
                    e,
                    "runtime download is incomplete: received "@ + decimal(
                        self.received().len(),
                    ) + " of "@ + decimal(self.expected_size() as nat) + " bytes"@,
                ) || self.received().len() == self.expected_size() && sha256_hex(self.received())
                    != expected_sha256@.map_values(|c: char| ascii_lower(c)) && is_config_error(
                    e,
                    "runtime checksum mismatch: expected "@ + expected_sha256@ + ", received "@
                        + sha256_hex(self.received()),
                ),
            },
    {
        proof {
            use_type_invariant(&self);
        }
        if self.completed != self.expected_size {
            let mut m = str_to_chars("runtime download is incomplete: received ");
            append_chars(&mut m, &u64_chars(self.completed));
            append_str(&mut m, " of ");
            append_chars(&mut m, &u64_chars(self.expected_size));
            append_str(&mut m, " bytes");
            return Err(config_error(chars_to_string(&m)));
        }
        let actual = sha256_finish(self.digest);
        let expected = lowercase_ascii(expected_sha256);
        let actual_chars = str_to_chars(actual.as_str());
        if !chars_eq(&actual_chars, &expected) {
            let mut m = str_to_chars("runtime checksum mismatch: expected ");
            append_str(&mut m, expected_sha256);
            append_str(&mut m, ", received ");
            append_chars(&mut m, &actual_chars);
            return Err(config_error(chars_to_string(&m)));
        }
        Ok(())
    }
}

/// `str::to_ascii_lowercase`.
pub fn lowercase_ascii(s: &str) -> (r: Vec<char>)
    ensures
        r@ == s@.map_values(|c: char| ascii_lower(c)),
{
    let chars = str_to_chars(s);
    let mut out: Vec<char> = Vec::new();
    let mut i: usize = 0;
    while i < chars.len()
        invariant
            i <= chars.len(),
            out@ == chars@.take(i as int).map_values(|c: char| ascii_lower(c)),
        decreases chars.len() - i,
    {
        out.push(ascii_lower_char(chars[i]));
        assert(out@ =~= chars@.take(i + 1).map_values(|c: char| ascii_lower(c)));
        i = i + 1;
    }
    assert(chars@.take(chars.len() as int) =~= chars@);
    out
}

// ----- extraction -----
/// A ZIP mode that marks a symbolic link.
pub open spec fn is_symlink_mode(mode: u32) -> bool {
    mode & 0o170000u32 == 0o120000u32
}

/// Accounting of the bytes that extracting an archive writes.
pub struct ExtractionBudget {
    extracted: u64,
    maximum: u64,
}

impl ExtractionBudget {
    pub closed spec fn extracted(&self) -> u64 {
        self.extracted
    }

    pub closed spec fn maximum(&self) -> u64 {
        self.maximum
    }

    pub fn new(maximum: u64) -> (r: Self)
        ensures
            r.extracted() == 0,
            r.maximum() == maximum,
    {
        ExtractionBudget { extracted: 0, maximum }
    }

    /// Admits one archive entry: its name must stay below the destination,
    /// it must not be a symbolic link, and the total size stays within the
    /// maximum.
    pub fn admit_entry(&mut self, name: &str, enclosed: bool, unix_mode: Option<u32>, size: u64) -> (r:
        Result<(), StackError>)
        requires
            old(self).extracted() <= old(self).maximum(),
        ensures
            final(self).maximum() == old(self).maximum(),
            final(self).extracted() <= final(self).maximum(),
            match r {
                Ok(()) => enclosed && !(unix_mode matches Some(m) && is_symlink_mode(m))
                    && final(self).extracted() == old(self).extracted() + size,
                Err(e) => final(self).extracted() == old(self).extracted() && if !enclosed {
                    is_config_error(e, "runtime ZIP entry escapes staging: "@ + name@)
                } else if unix_mode matches Some(m) && is_symlink_mode(m) {
                    is_config_error(e, "runtime ZIP contains an unsupported symbolic link: "@ + name@)
                } else {
                    old(self).extracted() + size > old(self).maximum() && (is_config_error(
                        e,
                        "runtime extracted size overflowed"@,
                    ) || is_config_error(e, "runtime archive exceeds the maximum extracted size"@))
                },
            },
    {
        if !enclosed {
            return Err(config_error(concat_strs("runtime ZIP entry escapes staging: ", name)));
        }
        match unix_mode {
            Some(mode) => {
                if mode & 0o170000u32 == 0o120000u32 {
                    return Err(
                        config_error(
                            concat_strs("runtime ZIP contains an unsupported symbolic link: ", name),
                        ),
                    );
                }
            },
            None => {},
        }
        if self.extracted > u64::MAX - size {
            return Err(config_error_str("runtime extracted size overflowed"));
        }
        let next = self.extracted + size;
        if next > self.maximum {
            return Err(config_error_str("runtime archive exceeds the maximum extracted size"));
        }
        self.extracted = next;
        Ok(())
    }
}

// ----- the embedded artifact table -----
pub open spec fn no_artifact_message(kind: ServiceKind, os: Seq<char>, arch: Seq<char>) -> Seq<char> {
    "no verified "@ + kind.spec_name() + " runtime artifact is published for "@ + os + "/"@ + arch
}

/// The runtime archives that managed installation may download. The
/// table's digest and size are not filled in yet (an all-zero digest and
/// size 0); until they are, `DownloadCheck` refuses the first byte of the
/// archive, so an installation fails closed rather than trusting an
/// unchecked download.
pub fn embedded_artifact(kind: ServiceKind, os: &str, arch: &str) -> (r: Result<
    RuntimeArtifact,
    StackError,
>)
    ensures
        match r {
            Ok(a) => kind == ServiceKind::Ollama && os@ == "windows"@ && arch@ == "x86_64"@
                && a.kind == kind && a.os@ == os@ && a.arch@ == arch@
                && a.version@ == "0.33.2"@
                && a.url@ == "https://github.com/ollama/ollama/releases/download/v0.33.2/ollama-windows-amd64.zip"@
                && a.archive_format@ == "zip"@
                && a.sha256@ == "0000000000000000000000000000000000000000000000000000000000000000"@
                && a.download_size == 0
                && a.maximum_extracted_size == 4294967296
                && a.executable_relative_path@ == "ollama.exe"@,
            Err(e) => !(kind == ServiceKind::Ollama && os@ == "windows"@ && arch@ == "x86_64"@)
                && is_config_error(e, no_artifact_message(kind, os@, arch@)),
        },
{
    if kind == ServiceKind::Ollama && str_eq(os, "windows") && str_eq(arch, "x86_64") {
        Ok(
            RuntimeArtifact {
                kind,
                os: String::from_str(os),
                arch: String::from_str(arch),
                version: String::from_str("0.33.2"),
                url: String::from_str(
                    "https://github.com/ollama/ollama/releases/download/v0.33.2/ollama-windows-amd64.zip",
                ),
                archive_format: String::from_str("zip"),
                sha256: String::from_str(
                    "0000000000000000000000000000000000000000000000000000000000000000",
                ),
                download_size: 0,
                maximum_extracted_size: 4294967296,
                executable_relative_path: String::from_str("ollama.exe"),
            },
        )
    } else {
        let mut m = str_to_chars("no verified ");
        append_str(&mut m, kind.name());
        append_str(&mut m, " runtime artifact is published for ");
        append_str(&mut m, os);
        append_str(&mut m, "/");
        append_str(&mut m, arch);
        Err(config_error(chars_to_string(&m)))
    }
}

} // verus!
