//! Self-update decisions: the release platform, whether a release is newer,
//! which release asset to fetch, whether a download matches its published
//! checksum, and whether an update archive holds exactly one executable.
use vstd::prelude::*;

use sha2::Digest;

use crate::checksums::{find_checksum, lines, manifest_checksum};
use crate::error::{fails_with, Error};
use crate::json::{entry_keys, entry_vals, key_pos, object, push_member, Json, JsonView};
use crate::text::{
    chars_eq, chars_eq_ignore_ascii_case, chars_of, decimal, eq_ignore_ascii_case, has_prefix, is_blank,
    push_str, slice_chars, starts_with, string_of, strip_leading, strip_leading_chars, trim,
    trimmed, utf8_str,
};

verus! {

/// A downloadable file of a release.
pub struct Asset {
    pub name: String,
    pub browser_download_url: String,
}

/// The latest release, as the GitHub API describes it.
pub struct Release {
    pub tag_name: String,
    pub body: Option<String>,
    pub assets: Vec<Asset>,
}

/// The names of a list of assets.
pub open spec fn asset_names(assets: Seq<Asset>) -> Seq<Seq<char>> {
    Seq::new(assets.len(), |i: int| assets[i].name@)
}

/// Downloads are only taken from this project's GitHub releases.
pub open spec fn trusted_download(url: Seq<char>) -> bool {
    has_prefix(url, "https://github.com/oneortwo/mlc-cli/releases/download/"@)
}

/// The URL of the first asset named `name` when it is a download of this
/// project's releases, else the error that names the asset.
pub open spec fn asset_result(assets: Seq<Asset>, name: Seq<char>) -> Result<
    Seq<char>,
    (i32, Seq<char>),
> {
    let p = key_pos(asset_names(assets), name);
    if p >= 0 && trusted_download(assets[p].browser_download_url@) {
        Ok(assets[p].browser_download_url@)
    } else {
        Err((1, "Release is missing a valid "@ + name + " asset"@))
    }
}

impl Release {
    /// The URL of the first asset named `name`, when it is a download of this
    /// project's releases.
    pub fn asset(&self, name: &str) -> (r: Result<&str, Error>)
        ensures
            ({
                let p = key_pos(asset_names(self.assets@), name@);
                if p >= 0 && trusted_download(self.assets@[p].browser_download_url@) {
                    r matches Ok(u) && u@ == self.assets@[p].browser_download_url@
                } else {
                    fails_with(r, 1, "Release is missing a valid "@ + name@ + " asset"@)
                }
            }),
    {
        let ghost names = asset_names(self.assets@);
        let wanted = name.to_string();
        let mut j: usize = 0;
        while j < self.assets.len()
            invariant
                j <= self.assets@.len(),
                names == asset_names(self.assets@),
                wanted@ == name@,
                forall|i: int| 0 <= i < j ==> names[i] != name@,
            decreases self.assets@.len() - j,
        {
            if self.assets[j].name == wanted {
                proof {
                    crate::json::lemma_key_pos_at(names, name@, j as int);
                }
                let url = self.assets[j].browser_download_url.as_str();
                let prefix = chars_of("https://github.com/oneortwo/mlc-cli/releases/download/");
                if starts_with(&chars_of(url), &prefix) {
                    return Ok(url);
                }
                return Err(missing_asset(name));
            }
            j = j + 1;
        }
        proof {
            crate::json::lemma_key_pos_at(names, name@, j as int);
        }
        Err(missing_asset(name))
    }
}

fn missing_asset(name: &str) -> (e: Error)
    ensures
        e.is(1, "Release is missing a valid "@ + name@ + " asset"@),
{
    let mut message: Vec<char> = Vec::new();
    push_str(&mut message, "Release is missing a valid ");
    push_str(&mut message, name);
    push_str(&mut message, " asset");
    Error::new(1, string_of(&message).as_str())
}

/// The platform part of a release archive's name, for an operating system and
/// an architecture as Rust names them.
pub open spec fn target_result(os: Seq<char>, arch: Seq<char>) -> Result<Seq<char>, (i32, Seq<char>)> {
    let system = if os == "macos"@ {
        Some("apple-darwin"@)
    } else if os == "linux"@ {
        Some("unknown-linux-gnu"@)
    } else {
        None
    };
    match system {
        None => Err((1, "Unsupported platform for self-update"@)),
        Some(sys) => if arch == "aarch64"@ || arch == "x86_64"@ {
            Ok(arch + "-"@ + sys)
        } else {
            Err((1, "Unsupported architecture for self-update"@))
        },
    }
}

fn str_is(s: &str, literal: &str) -> (b: bool)
    ensures
        b == (s@ == literal@),
{
    chars_eq(&chars_of(s), &chars_of(literal))
}

/// The release target triple of the running platform.
pub fn target(os: &str, arch: &str) -> (r: Result<String, Error>)
    ensures
        match target_result(os@, arch@) {
            Ok(t) => r matches Ok(s) && s@ == t,
            Err((c, m)) => fails_with(r, c, m),
        },
{
    let system = if str_is(os, "macos") {
        "apple-darwin"
    } else if str_is(os, "linux") {
        "unknown-linux-gnu"
    } else {
        return Err(Error::new(1, "Unsupported platform for self-update"));
    };
    if str_is(arch, "aarch64") || str_is(arch, "x86_64") {
        let mut t: Vec<char> = Vec::new();
        push_str(&mut t, arch);
        push_str(&mut t, "-");
        push_str(&mut t, system);
        Ok(string_of(&t))
    } else {
        Err(Error::new(1, "Unsupported architecture for self-update"))
    }
}

/// The name of the release archive for a target.
pub fn archive_name(target: &str) -> (r: String)
    ensures
        r@ == "mlc-"@ + target@ + ".tar.gz"@,
{
    let mut t: Vec<char> = Vec::new();
    push_str(&mut t, "mlc-");
    push_str(&mut t, target);
    push_str(&mut t, ".tar.gz");
    string_of(&t)
}

/// The release notes worth showing: the body, trimmed, when it is not blank.
pub fn release_notes(body: &Option<String>) -> (r: Option<String>)
    ensures
        match body {
            Some(b) => if trim(b@).len() > 0 {
                r matches Some(n) && n@ == trim(b@)
            } else {
                r is None
            },
            None => r is None,
        },
{
    match body {
        Some(b) => {
            if is_blank(b.as_str()) {
                None
            } else {
                Some(string_of(&trimmed(&chars_of(b.as_str()))))
            }
        },
        None => None,
    }
}

/// The report of an update check that found nothing newer.
pub fn up_to_date_report(current: &str) -> (r: Json)
    ensures
        r@ == JsonView::Object(
            seq!["updated"@, "version"@],
            seq![JsonView::Bool(false), JsonView::Str(current@)],
        ),
{
    let mut e: Vec<(String, Json)> = Vec::new();
    push_member(&mut e, "updated", Json::Bool(false));
    push_member(&mut e, "version", Json::string(current));
    assert(entry_keys(e@) =~= seq!["updated"@, "version"@]);
    assert(entry_vals(e@) =~= seq![JsonView::Bool(false), JsonView::Str(current@)]);
    object(e)
}

/// The report of an installed update: the previous version, and the release
/// tag without its leading `v`s.
pub fn updated_report(current: &str, tag: &str) -> (r: Json)
    ensures
        r@ == JsonView::Object(
            seq!["updated"@, "previous_version"@, "version"@],
            seq![
                JsonView::Bool(true),
                JsonView::Str(current@),
                JsonView::Str(strip_leading(tag@, 'v')),
            ],
        ),
{
    let version = string_of(&strip_leading_chars(&chars_of(tag), 'v'));
    let mut e: Vec<(String, Json)> = Vec::new();
    push_member(&mut e, "updated", Json::Bool(true));
    push_member(&mut e, "previous_version", Json::string(current));
    push_member(&mut e, "version", Json::Str(version));
    assert(entry_keys(e@) =~= seq!["updated"@, "previous_version"@, "version"@]);
    assert(entry_vals(e@) =~= seq![
        JsonView::Bool(true),
        JsonView::Str(current@),
        JsonView::Str(strip_leading(tag@, 'v')),
    ]);
    object(e)
}

/// A semantic version by its parts, as the `semver` crate parses it.
pub struct SemVer {
    pub major: u64,
    pub minor: u64,
    pub patch: u64,
    pub pre: String,
    pub build: String,
}

/// The mathematical model of a semantic version.
pub struct VersionView {
    pub major: u64,
    pub minor: u64,
    pub patch: u64,
    pub pre: Seq<char>,
    pub build: Seq<char>,
}

impl View for SemVer {
    type V = VersionView;

    open spec fn view(&self) -> VersionView {
        VersionView {
            major: self.major,
            minor: self.minor,
            patch: self.patch,
            pre: self.pre@,
            build: self.build@,
        }
    }
}

/// What `semver::Version::parse` makes of a text.
pub uninterp spec fn semver_parse(text: Seq<char>) -> Option<VersionView>;

/// Whether one version is greater than another in `semver::Version`'s order.
pub uninterp spec fn semver_greater(a: VersionView, b: VersionView) -> bool;

/// The version is what `semver::Version::parse` gives for some text.
pub open spec fn parsed(v: VersionView) -> bool {
    exists|t: Seq<char>| semver_parse(t) == Some(v)
}

/// The text `major.minor.patch` of plain release numbers, each in decimal
/// without leading zeros.
pub open spec fn release_text(major: u64, minor: u64, patch: u64) -> Seq<char> {
    decimal(major as nat) + "."@ + decimal(minor as nat) + "."@ + decimal(patch as nat)
}

/// `semver::Version::parse`, its result taken apart into plain values. A text
/// of three release numbers alone parses to exactly those numbers, with empty
/// pre-release and build parts.
#[verifier::external_body]
fn parse_version(text: &str) -> (r: Option<SemVer>)
    ensures
        match r {
            Some(v) => semver_parse(text@) == Some(v@),
            None => semver_parse(text@) is None,
        },
        r is None ==> forall|a: u64, b: u64, c: u64| #[trigger] release_text(a, b, c) != text@,
        r matches Some(v) ==> forall|a: u64, b: u64, c: u64|
            #[trigger] release_text(a, b, c) == text@ ==> (v.major == a && v.minor == b && v.patch
                == c && v.pre@.len() == 0 && v.build@.len() == 0),
{
    match semver::Version::parse(text) {
        Ok(v) => Some(
            SemVer {
                major: v.major,
                minor: v.minor,
                patch: v.patch,
                pre: v.pre.as_str().to_string(),
                build: v.build.as_str().to_string(),
            },
        ),
        Err(_) => None,
    }
}

/// `>` on `semver::Version`, for versions that parsing produced (their
/// pre-release and build parts parse again with `Prerelease::new` and
/// `BuildMetadata::new`). The order is derived: it compares major, minor and
/// patch numbers first, in that order; a version is not greater than itself.
#[verifier::external_body]
fn version_greater(a: &SemVer, b: &SemVer) -> (r: bool)
    requires
        parsed(a@),
        parsed(b@),
    ensures
        r == semver_greater(a@, b@),
        a@ == b@ ==> !r,
        a.major != b.major ==> r == (a.major > b.major),
        a.major == b.major && a.minor != b.minor ==> r == (a.minor > b.minor),
        a.major == b.major && a.minor == b.minor && a.patch != b.patch ==> r == (a.patch > b.patch),
{
    let x = semver::Version {
        major: a.major,
        minor: a.minor,
        patch: a.patch,
        pre: semver::Prerelease::new(&a.pre).unwrap(),
        build: semver::BuildMetadata::new(&a.build).unwrap(),
    };
    let y = semver::Version {
        major: b.major,
        minor: b.minor,
        patch: b.patch,
        pre: semver::Prerelease::new(&b.pre).unwrap(),
        build: semver::BuildMetadata::new(&b.build).unwrap(),
    };
    x > y
}

/// The tag without one leading `v`.
pub open spec fn strip_v(tag: Seq<char>) -> Seq<char> {
    if tag.len() > 0 && tag[0] == 'v' {
        tag.drop_first()
    } else {
        tag
    }
}

/// Whether the release tagged `tag` is newer than the running version.
pub open spec fn newer_result(tag: Seq<char>, current: Seq<char>) -> Result<bool, (i32, Seq<char>)> {
    match semver_parse(strip_v(tag)) {
        None => Err((1, "Release has an invalid version"@)),
        Some(l) => match semver_parse(current) {
            None => Err((1, "Current version is invalid"@)),
            Some(c) => Ok(semver_greater(l, c)),
        },
    }
}

/// `(major, minor, patch)` of `a` is at least that of `b`, in lexicographic order.
pub open spec fn release_at_least(a: VersionView, b: VersionView) -> bool {
    ||| a.major > b.major
    ||| (a.major == b.major && a.minor > b.minor)
    ||| (a.major == b.major && a.minor == b.minor && a.patch >= b.patch)
}

/// `(major, minor, patch)` of `a` is greater than that of `b`, in lexicographic
/// order.
pub open spec fn release_above(a: VersionView, b: VersionView) -> bool {
    ||| a.major > b.major
    ||| (a.major == b.major && a.minor > b.minor)
    ||| (a.major == b.major && a.minor == b.minor && a.patch > b.patch)
}

/// The comparison of parsed versions: `None` stands for a text that did not
/// parse. An update never goes back or sideways: when the answer is yes, the
/// release differs from the running version and its release numbers are at
/// least the running ones.
pub fn newer_version(latest: Option<SemVer>, current: Option<SemVer>) -> (r: Result<bool, Error>)
    requires
        latest matches Some(l) ==> parsed(l@),
        current matches Some(c) ==> parsed(c@),
    ensures
        latest is None ==> fails_with(r, 1, "Release has an invalid version"@),
        latest is Some && current is None ==> fails_with(r, 1, "Current version is invalid"@),
        latest matches Some(l) ==> (current matches Some(c) ==> r == Ok::<bool, Error>(
            semver_greater(l@, c@),
        )),
        latest matches Some(l) ==> (current matches Some(c) ==> (r == Ok::<bool, Error>(true) ==> (l@
            != c@ && release_at_least(l@, c@)))),
        latest matches Some(l) ==> (current matches Some(c) ==> (release_above(l@, c@) ==> r == Ok::<
            bool,
            Error,
        >(true))),
        latest matches Some(l) ==> (current matches Some(c) ==> (release_above(c@, l@) ==> r == Ok::<
            bool,
            Error,
        >(false))),
        latest matches Some(l) ==> (current matches Some(c) ==> (l@ == c@ ==> r == Ok::<
            bool,
            Error,
        >(false))),
{
    let latest = match latest {
        Some(v) => v,
        None => {
            return Err(Error::new(1, "Release has an invalid version"));
        },
    };
    let current = match current {
        Some(v) => v,
        None => {
            return Err(Error::new(1, "Current version is invalid"));
        },
    };
    Ok(version_greater(&latest, &current))
}

/// Whether the release tagged `tag` (with or without a leading `v`) is newer
/// than the running version `current`. An update never goes back or sideways:
/// when the answer is yes, the release differs from the running version and
/// its release numbers are at least the running ones. For plain
/// `major.minor.patch` versions the answer is the order of the release numbers.
pub fn newer(tag: &str, current: &str) -> (r: Result<bool, Error>)
    ensures
        match newer_result(tag@, current@) {
            Ok(b) => r == Ok::<bool, Error>(b),
            Err((c, m)) => fails_with(r, c, m),
        },
        r == Ok::<bool, Error>(true) ==> ({
            let l = semver_parse(strip_v(tag@))->0;
            let c = semver_parse(current@)->0;
            l != c && release_at_least(l, c)
        }),
        forall|a: u64, b: u64, c: u64, x: u64, y: u64, z: u64|
            #![trigger release_text(a, b, c), release_text(x, y, z)]
            strip_v(tag@) == release_text(a, b, c) && current@ == release_text(x, y, z) ==> r
                == Ok::<bool, Error>(a > x || (a == x && b > y) || (a == x && b == y && c > z)),
{
    let t = chars_of(tag);
    let stripped = if t.len() > 0 && t[0] == 'v' {
        slice_chars(&t, 1, t.len())
    } else {
        t
    };
    assert(stripped@ == strip_v(tag@)) by {
        if tag@.len() > 0 && tag@[0] == 'v' {
            assert(tag@.subrange(1, tag@.len() as int) =~= tag@.drop_first());
        }
    }
    let text = string_of(&stripped);
    let latest = parse_version(text.as_str());
    let running = parse_version(current);
    assert(latest matches Some(l) ==> semver_parse(text@) == Some(l@));
    assert(running matches Some(c) ==> semver_parse(current@) == Some(c@));
    let r = newer_version(latest, running);
    assert forall|a: u64, b: u64, c: u64, x: u64, y: u64, z: u64|
        #![trigger release_text(a, b, c), release_text(x, y, z)]
        strip_v(tag@) == release_text(a, b, c) && current@ == release_text(x, y, z) implies r
            == Ok::<bool, Error>(a > x || (a == x && b > y) || (a == x && b == y && c > z)) by {
        let l = latest->0;
        let k = running->0;
        if a == x && b == y && c == z {
            assert(l@.pre =~= k@.pre);
            assert(l@.build =~= k@.build);
        }
    }
    r
}

/// The SHA-256 digest of the data.
pub uninterp spec fn sha256_digest(data: Seq<u8>) -> Seq<u8>;

/// `sha2::Sha256::digest`: the 32-byte SHA-256 digest of the data.
#[verifier::external_body]
fn sha256(data: &[u8]) -> (r: Vec<u8>)
    ensures
        r@ == sha256_digest(data@),
        r@.len() == 32,
{
    sha2::Sha256::digest(data).to_vec()
}

/// The lowercase hexadecimal digit for `d < 16`.
pub open spec fn hex_digit(d: nat) -> char {
    if d < 10 {
        ((d + 48) as u32) as char
    } else {
        ((d + 87) as u32) as char
    }
}

/// Lowercase hexadecimal, two digits per byte (`format!("{:x}", digest)`).
pub open spec fn hex_lower(bytes: Seq<u8>) -> Seq<char>
    decreases bytes.len(),
{
    if bytes.len() == 0 {
        Seq::empty()
    } else {
        hex_lower(bytes.drop_last()) + seq![
            hex_digit(bytes.last() as nat / 16),
            hex_digit(bytes.last() as nat % 16),
        ]
    }
}

fn hex_char(d: u8) -> (c: char)
    requires
        d < 16,
    ensures
        c == hex_digit(d as nat),
{
    if d == 0 { '0' } else if d == 1 { '1' } else if d == 2 { '2' } else if d == 3 { '3' } else if d
        == 4 { '4' } else if d == 5 { '5' } else if d == 6 { '6' } else if d == 7 { '7' } else if d
        == 8 { '8' } else if d == 9 { '9' } else if d == 10 { 'a' } else if d == 11 { 'b' } else if d
        == 12 { 'c' } else if d == 13 { 'd' } else if d == 14 { 'e' } else { 'f' }
}

/// The bytes in lowercase hexadecimal.
pub fn hex_encode(bytes: &Vec<u8>) -> (r: Vec<char>)
    ensures
        r@ == hex_lower(bytes@),
{
    let mut r: Vec<char> = Vec::new();
    let mut i: usize = 0;
    while i < bytes.len()
        invariant
            i <= bytes@.len(),
            r@ == hex_lower(bytes@.take(i as int)),
        decreases bytes@.len() - i,
    {
        let b = bytes[i];
        let ghost before = r@;
        r.push(hex_char(b / 16));
        r.push(hex_char(b % 16));
        proof {
            let t = bytes@.take(i + 1);
            assert(t.drop_last() =~= bytes@.take(i as int));
            assert(t.last() == b);
            assert(r@ =~= hex_lower(t));
        }
        i = i + 1;
    }
    assert(bytes@.take(bytes@.len() as int) =~= bytes@);
    r
}

/// Whether an archive with the given SHA-256 digest matches the checksum that
/// the release's manifest publishes for `name`.
pub open spec fn checksum_result(digest: Seq<u8>, manifest: Seq<u8>, name: Seq<char>) -> Result<
    (),
    (i32, Seq<char>),
> {
    if !vstd::utf8::valid_utf8(manifest) {
        Err((1, "Invalid release checksums"@))
    } else {
        match find_checksum(lines(vstd::utf8::decode_utf8(manifest)), name) {
            None => Err((1, "Release checksum is missing for this platform"@)),
            Some(expected) => if eq_ignore_ascii_case(hex_lower(digest), expected) {
                Ok(())
            } else {
                Err((1, "Update checksum mismatch; executable was not changed"@))
            },
        }
    }
}

/// Checks an archive's SHA-256 digest against the manifest's checksum for
/// `name`: only the published digest, in either case, is accepted.
pub fn check_checksum(digest: &[u8], manifest: &[u8], name: &str) -> (r: Result<(), Error>)
    ensures
        match checksum_result(digest@, manifest@, name@) {
            Ok(_) => r is Ok,
            Err((c, m)) => fails_with(r, c, m),
        },
{
    let text = match utf8_str(manifest) {
        Some(t) => t,
        None => {
            return Err(Error::new(1, "Invalid release checksums"));
        },
    };
    let chars = chars_of(text);
    let wanted = chars_of(name);
    let expected = match manifest_checksum(&chars, &wanted) {
        Some(h) => h,
        None => {
            return Err(Error::new(1, "Release checksum is missing for this platform"));
        },
    };
    let mut bytes: Vec<u8> = Vec::new();
    let mut i: usize = 0;
    while i < digest.len()
        invariant
            i <= digest@.len(),
            bytes@ == digest@.take(i as int),
        decreases digest@.len() - i,
    {
        bytes.push(digest[i]);
        i = i + 1;
        assert(bytes@ =~= digest@.take(i as int));
    }
    assert(digest@.take(digest@.len() as int) =~= digest@);
    let actual = hex_encode(&bytes);
    if !chars_eq_ignore_ascii_case(&actual, &expected) {
        return Err(Error::new(1, "Update checksum mismatch; executable was not changed"));
    }
    Ok(())
}

/// Checks a downloaded archive against the manifest's checksum for `name`.
pub fn verify(archive: &[u8], manifest: &[u8], name: &str) -> (r: Result<(), Error>)
    ensures
        match checksum_result(sha256_digest(archive@), manifest@, name@) {
            Ok(_) => r is Ok,
            Err((c, m)) => fails_with(r, c, m),
        },
{
    let digest = sha256(archive);
    check_checksum(digest.as_slice(), manifest, name)
}

/// The error for an archive with a second `mlc` entry, or one that is not a
/// regular file.
pub open spec fn not_exactly_one() -> Seq<char> {
    "Archive must contain exactly one regular mlc executable"@
}

/// An entry of an update archive as read from it: the bytes of its path,
/// whether it is a regular file, and its content (`None` where reading the
/// content failed).
pub struct ArchiveEntry {
    pub path: Vec<u8>,
    pub regular: bool,
    pub data: Option<Vec<u8>>,
}

/// The mathematical model of an archive entry.
pub struct EntryView {
    pub path: Seq<u8>,
    pub regular: bool,
    pub data: Option<Seq<u8>>,
}

impl View for ArchiveEntry {
    type V = EntryView;

    open spec fn view(&self) -> EntryView {
        EntryView {
            path: self.path@,
            regular: self.regular,
            data: match self.data {
                Some(d) => Some(d@),
                None => None,
            },
        }
    }
}

/// The models of a list of archive entries.
pub open spec fn entry_views(entries: Seq<ArchiveEntry>) -> Seq<EntryView> {
    Seq::new(entries.len(), |i: int| entries[i]@)
}

/// What the `tar` crate reads from a gzip-compressed archive: its entries in
/// order, and whether reading stopped on an error.
pub uninterp spec fn tar_gz_entries(archive: Seq<u8>) -> (Seq<EntryView>, bool);

/// `tar::Archive::entries` over `flate2::read::GzDecoder`: each entry's
/// `path_bytes`, whether its `EntryType` is a regular file, and its content
/// read to the end. Reading stops at the first entry that fails to come, or
/// after the first entry whose content fails to read.
#[verifier::external_body]
fn archive_entries(archive: &[u8]) -> (r: (Vec<ArchiveEntry>, bool))
    ensures
        (entry_views(r.0@), r.1) == tar_gz_entries(archive@),
{
    let mut reader = tar::Archive::new(flate2::read::GzDecoder::new(archive));
    let mut out = Vec::new();
    let Ok(entries) = reader.entries() else { return (out, true) };
    for entry in entries {
        let Ok(mut entry) = entry else { return (out, true) };
        let mut data = Vec::new();
        let data = std::io::Read::read_to_end(&mut entry, &mut data).ok().map(|_| data);
        let failed = data.is_none();
        let path = entry.path_bytes().into_owned();
        out.push(ArchiveEntry { path, regular: entry.header().entry_type().is_file(), data });
        if failed { return (out, true) }
    }
    (out, false)
}

/// A path that `std::path::Path` compares equal to `mlc` on Unix: the name
/// `mlc` followed only by separators and `.` components.
pub open spec fn is_mlc_path(p: Seq<u8>) -> bool {
    &&& p.len() >= 3
    &&& p[0] == 109u8 && p[1] == 108u8 && p[2] == 99u8
    &&& p.len() > 3 ==> p[3] == 47u8
    &&& forall|i: int|
        4 <= i < p.len() ==> (#[trigger] p[i] == 47u8 || (p[i] == 46u8 && p[i - 1] == 47u8 && (i + 1
            == p.len() || p[i + 1] == 47u8)))
}

/// Whether an archive path names the executable.
pub fn mlc_path(p: &Vec<u8>) -> (r: bool)
    ensures
        r == is_mlc_path(p@),
{
    let n = p.len();
    if n < 3 || p[0] != 109u8 || p[1] != 108u8 || p[2] != 99u8 {
        return false;
    }
    if n > 3 && p[3] != 47u8 {
        return false;
    }
    let mut i: usize = 4;
    while i < n
        invariant
            n == p@.len(),
            4 <= i,
            n > 3 ==> p@[3] == 47u8,
            forall|j: int|
                4 <= j < i && j < n ==> (#[trigger] p@[j] == 47u8 || (p@[j] == 46u8 && p@[j - 1] == 47u8
                    && (j + 1 == n || p@[j + 1] == 47u8))),
        decreases n - i,
    {
        let c = p[i];
        if c != 47u8 {
            if c != 46u8 || p[i - 1] != 47u8 || (i + 1 < n && p[i + 1] != 47u8) {
                return false;
            }
        }
        i = i + 1;
    }
    true
}

/// One entry of an update archive, taken in order: the content of the
/// executable found so far, or the error that stops the install.
pub open spec fn select_step(
    state: Result<Option<Seq<u8>>, (i32, Seq<char>)>,
    e: EntryView,
) -> Result<Option<Seq<u8>>, (i32, Seq<char>)> {
    match state {
        Err(x) => Err(x),
        Ok(found) => if !is_mlc_path(e.path) {
            if e.data is None {
                Err((1, "Invalid update archive entry"@))
            } else {
                Ok(found)
            }
        } else if found is Some || !e.regular {
            Err((1, not_exactly_one()))
        } else {
            match e.data {
                None => Err((1, "Cannot stage update executable"@)),
                Some(d) => if d.len() == 0 {
                    Err((1, "Update executable is empty"@))
                } else {
                    Ok(Some(d))
                },
            }
        },
    }
}

/// The state after the entries, in order.
pub open spec fn select_scan(entries: Seq<EntryView>) -> Result<Option<Seq<u8>>, (i32, Seq<char>)>
    decreases entries.len(),
{
    if entries.len() == 0 {
        Ok(None)
    } else {
        select_step(select_scan(entries.drop_last()), entries.last())
    }
}

/// How an install ends for the entries read and whether reading stopped on an
/// error: the content of the one executable, or the error.
pub open spec fn select_outcome(entries: Seq<EntryView>, stopped: bool) -> Result<
    Seq<u8>,
    (i32, Seq<char>),
> {
    match select_scan(entries) {
        Err(x) => Err(x),
        Ok(found) => if stopped {
            Err((1, "Invalid update archive entry"@))
        } else {
            match found {
                None => Err((1, "Archive does not contain mlc"@)),
                Some(d) => Ok(d),
            }
        },
    }
}

/// The number of entries whose path names the executable.
pub open spec fn mlc_count(entries: Seq<EntryView>) -> nat
    decreases entries.len(),
{
    if entries.len() == 0 {
        0
    } else {
        mlc_count(entries.drop_last()) + if is_mlc_path(entries.last().path) {
            1nat
        } else {
            0nat
        }
    }
}

/// Every entry's content was read.
pub open spec fn all_read(entries: Seq<EntryView>) -> bool {
    forall|i: int| 0 <= i < entries.len() ==> (#[trigger] entries[i]).data is Some
}

/// Every entry that names the executable is a regular file with some content.
pub open spec fn mlc_entries_good(entries: Seq<EntryView>) -> bool {
    forall|i: int|
        0 <= i < entries.len() && is_mlc_path((#[trigger] entries[i]).path) ==> entries[i].regular
            && (entries[i].data matches Some(d) && d.len() > 0)
}

proof fn lemma_select_states(entries: Seq<EntryView>)
    ensures
        select_scan(entries) is Ok <==> (all_read(entries) && mlc_count(entries) <= 1
            && mlc_entries_good(entries)),
        select_scan(entries) matches Ok(f) ==> ((f is None <==> mlc_count(entries) == 0) && (f matches Some(
            d) ==> (exists|i: int|
            0 <= i < entries.len() && is_mlc_path(#[trigger] entries[i].path) && entries[i].data
                == Some(d)))),
    decreases entries.len(),
{
    if entries.len() > 0 {
        let p = entries.drop_last();
        let x = entries.last();
        let n = entries.len() - 1;
        lemma_select_states(p);
        assert forall|i: int| 0 <= i < p.len() implies p[i] == entries[i] by {}
        assert(entries[n] == x);
        if all_read(entries) {
            assert forall|i: int| 0 <= i < p.len() implies (#[trigger] p[i]).data is Some by {
                assert(entries[i].data is Some);
            }
        }
        if mlc_entries_good(entries) {
            assert forall|i: int|
                0 <= i < p.len() && is_mlc_path((#[trigger] p[i]).path) implies p[i].regular
                && (p[i].data matches Some(d) && d.len() > 0) by {
                assert(entries[i] == p[i]);
            }
        }
        match select_scan(p) {
            Ok(f) => {
                if select_scan(entries) is Ok {
                    assert forall|i: int| 0 <= i < entries.len() implies (
                    #[trigger] entries[i]).data is Some by {
                        if i < n {
                            assert(p[i] == entries[i]);
                        }
                    }
                    assert forall|i: int|
                        0 <= i < entries.len() && is_mlc_path((#[trigger] entries[i]).path) implies entries[i].regular
                        && (entries[i].data matches Some(d) && d.len() > 0) by {
                        if i < n {
                            assert(p[i] == entries[i]);
                        }
                    }
                }
                if let Ok(Some(d)) = select_scan(entries) {
                    if is_mlc_path(x.path) {
                        assert(is_mlc_path(entries[n].path) && entries[n].data == Some(d));
                    } else {
                        let i = choose|i: int|
                            0 <= i < p.len() && is_mlc_path(#[trigger] p[i].path) && p[i].data
                                == Some(d);
                        assert(is_mlc_path(entries[i].path) && entries[i].data == Some(d));
                    }
                }
            },
            Err(_) => {},
        }
    }
}

proof fn lemma_select_err_stays(entries: Seq<EntryView>, k: int)
    requires
        0 <= k <= entries.len(),
        select_scan(entries.take(k)) is Err,
    ensures
        select_scan(entries) == select_scan(entries.take(k)),
    decreases entries.len() - k,
{
    if k < entries.len() {
        assert(entries.take(k + 1).drop_last() =~= entries.take(k));
        lemma_select_err_stays(entries, k + 1);
    } else {
        assert(entries.take(k) =~= entries);
    }
}

/// An update is installed exactly when reading the archive went through to
/// its end, it has one entry naming `mlc`, and that entry is a regular file
/// with some content: an archive without it, with two of them, with a link or
/// another special file in its place, with an empty one, or one that cannot
/// be read is refused. What is installed is that entry's content.
pub proof fn lemma_install_accepts_exactly_one_executable(archive: Seq<u8>)
    ensures
        ({
            let (entries, stopped) = tar_gz_entries(archive);
            &&& select_outcome(entries, stopped) is Ok <==> (!stopped && all_read(entries)
                && mlc_count(entries) == 1 && mlc_entries_good(entries))
            &&& select_outcome(entries, stopped) matches Ok(d) ==> exists|i: int|
                0 <= i < entries.len() && is_mlc_path(#[trigger] entries[i].path)
                    && entries[i].data == Some(d)
        }),
{
    lemma_select_states(tar_gz_entries(archive).0);
}

/// The executable's content from the entries read from an update archive and
/// whether reading them stopped on an error, or the error that refuses the
/// update.
pub fn select_from_entries(entries: &Vec<ArchiveEntry>, stopped: bool) -> (r: Result<
    Vec<u8>,
    Error,
>)
    ensures
        match select_outcome(entry_views(entries@), stopped) {
            Ok(d) => r matches Ok(v) && v@ == d,
            Err((c, m)) => fails_with(r, c, m),
        },
{
    let ghost views = entry_views(entries@);
    let mut found: Option<Vec<u8>> = None;
    let mut i: usize = 0;
    while i < entries.len()
        invariant
            i <= entries@.len(),
            views == entry_views(entries@),
            select_scan(views.take(i as int)) == Ok::<Option<Seq<u8>>, (i32, Seq<char>)>(
                match found {
                    Some(d) => Some(d@),
                    None => None,
                },
            ),
        decreases entries@.len() - i,
    {
        let e = &entries[i];
        assert(views.take(i + 1).drop_last() =~= views.take(i as int));
        assert(views.take(i + 1).last() == e@);
        if !mlc_path(&e.path) {
            if e.data.is_none() {
                proof {
                    lemma_select_err_stays(views, i + 1);
                }
                return Err(Error::new(1, "Invalid update archive entry"));
            }
        } else {
            if found.is_some() || !e.regular {
                proof {
                    lemma_select_err_stays(views, i + 1);
                }
                return Err(
                    Error::new(1, "Archive must contain exactly one regular mlc executable"),
                );
            }
            match &e.data {
                None => {
                    proof {
                        lemma_select_err_stays(views, i + 1);
                    }
                    return Err(Error::new(1, "Cannot stage update executable"));
                },
                Some(d) => {
                    if d.len() == 0 {
                        proof {
                            lemma_select_err_stays(views, i + 1);
                        }
                        return Err(Error::new(1, "Update executable is empty"));
                    }
                    let copy = d.clone();
                    assert(copy@ =~= d@);
                    found = Some(copy);
                },
            }
        }
        i = i + 1;
    }
    assert(views.take(entries@.len() as int) =~= views);
    if stopped {
        return Err(Error::new(1, "Invalid update archive entry"));
    }
    match found {
        None => Err(Error::new(1, "Archive does not contain mlc")),
        Some(d) => Ok(d),
    }
}

/// The executable in a gzip-compressed update archive: the content of its one
/// entry named `mlc`, or the error that refuses the update.
pub fn select_executable(archive: &[u8]) -> (r: Result<Vec<u8>, Error>)
    ensures
        match select_outcome(tar_gz_entries(archive@).0, tar_gz_entries(archive@).1) {
            Ok(d) => r matches Ok(v) && v@ == d,
            Err((c, m)) => fails_with(r, c, m),
        },
{
    let (entries, stopped) = archive_entries(archive);
    select_from_entries(&entries, stopped)
}

/// What an update check decides for the running version `current` on the
/// platform `target`: nothing to do when the release is not newer; else the
/// URLs of the platform archive and of the checksum manifest, both downloads
/// of this project's releases.
pub open spec fn plan_result(
    target: Seq<char>,
    current: Seq<char>,
    tag: Seq<char>,
    assets: Seq<Asset>,
) -> Result<Option<(Seq<char>, Seq<char>)>, (i32, Seq<char>)> {
    match newer_result(tag, current) {
        Err(x) => Err(x),
        Ok(false) => Ok(None),
        Ok(true) => match asset_result(assets, "mlc-"@ + target + ".tar.gz"@) {
            Err(x) => Err(x),
            Ok(a) => match asset_result(assets, "SHA256SUMS"@) {
                Err(x) => Err(x),
                Ok(c) => Ok(Some((a, c))),
            },
        },
    }
}

/// The update check: `None` when the release is not newer than the running
/// version, else the URLs to download the platform archive and the checksum
/// manifest from. Nothing is downloaded for a release that is not newer, and
/// only from this project's releases.
pub fn update_plan(target: &str, current: &str, release: &Release) -> (r: Result<
    Option<(String, String)>,
    Error,
>)
    ensures
        match plan_result(target@, current@, release.tag_name@, release.assets@) {
            Ok(None) => r matches Ok(None),
            Ok(Some((a, c))) => r matches Ok(Some((x, y))) && x@ == a && y@ == c,
            Err((code, m)) => fails_with(r, code, m),
        },
        r matches Ok(None) <==> newer_result(release.tag_name@, current@) == Ok::<
            bool,
            (i32, Seq<char>),
        >(false),
        r matches Ok(Some((x, y))) ==> newer_result(release.tag_name@, current@) == Ok::<
            bool,
            (i32, Seq<char>),
        >(true) && trusted_download(x@) && trusted_download(y@),
{
    if !newer(release.tag_name.as_str(), current)? {
        return Ok(None);
    }
    let name = archive_name(target);
    let archive = release.asset(name.as_str())?;
    let checksums = release.asset("SHA256SUMS")?;
    proof {
        reveal_strlit("SHA256SUMS");
    }
    Ok(Some((archive.to_string(), checksums.to_string())))
}

/// What is installed from a downloaded archive and checksum manifest: the
/// executable inside the archive, only when the archive's SHA-256 digest
/// matches the manifest's line for the platform archive.
pub open spec fn payload_result(target: Seq<char>, archive: Seq<u8>, checksums: Seq<u8>) -> Result<
    Seq<u8>,
    (i32, Seq<char>),
> {
    match checksum_result(sha256_digest(archive), checksums, "mlc-"@ + target + ".tar.gz"@) {
        Err(x) => Err(x),
        Ok(_) => select_outcome(tar_gz_entries(archive).0, tar_gz_entries(archive).1),
    }
}

/// The executable to install from a downloaded update: the archive's checksum
/// is checked first, and the executable is taken from it only when it matches.
pub fn update_payload(target: &str, archive: &[u8], checksums: &[u8]) -> (r: Result<
    Vec<u8>,
    Error,
>)
    ensures
        match payload_result(target@, archive@, checksums@) {
            Ok(d) => r matches Ok(v) && v@ == d,
            Err((c, m)) => fails_with(r, c, m),
        },
        r is Ok ==> checksum_result(
            sha256_digest(archive@),
            checksums@,
            "mlc-"@ + target@ + ".tar.gz"@,
        ) is Ok,
        r matches Ok(d) ==> select_outcome(tar_gz_entries(archive@).0, tar_gz_entries(archive@).1)
            == Ok::<Seq<u8>, (i32, Seq<char>)>(d@),
{
    let name = archive_name(target);
    verify(archive, checksums, name.as_str())?;
    select_executable(archive)
}


/// The release archive for a platform is the one built for its architecture:
/// a supported system (macOS or Linux) with a supported architecture
/// (`aarch64` or `x86_64`) gets the triple that starts with the architecture
/// itself, then a hyphen, then the system's vendor and name; any other
/// platform is refused.
pub proof fn lemma_target_starts_with_arch(os: Seq<char>, arch: Seq<char>)
    ensures
        target_result(os, arch) is Ok <==> ((os == "macos"@ || os == "linux"@) && (arch
            == "aarch64"@ || arch == "x86_64"@)),
        target_result(os, arch) matches Ok(t) ==> (t.take(arch.len() as int) == arch && t[arch.len() as int]
            == '-' && t == arch + "-"@ + (if os == "macos"@ {
            "apple-darwin"@
        } else {
            "unknown-linux-gnu"@
        })),
{
    if target_result(os, arch) is Ok {
        let t = target_result(os, arch)->Ok_0;
        reveal_strlit("-");
        assert(t.take(arch.len() as int) =~= arch);
    }
}

} // verus!
