//! Releases: which files to download for an update, and whether they are sound.

use vstd::prelude::*;

use crate::error::{AliazError, Failure};
use crate::outside;
use crate::outside::{sha256_digest, HASH_LIMIT};
use crate::text;
use crate::text::{
    cat,
    cat3,
    count_text,
    decimal_text,
    hex_text,
    lines,
    same_text,
    strip_leading,
    words,
};

verus! {

/// Where releases are downloaded from unless another place is named.
pub const RELEASE_BASE_URL: &'static str =
    "https://github.com/oshabana/aliaz/releases/latest/download";

/// Where releases are downloaded from.
pub fn release_base_url(named: Option<&str>) -> (r: String)
    ensures
        r@ == text::seen_option(named).unwrap_or(RELEASE_BASE_URL@),
{
    match named {
        Some(url) => url.to_owned(),
        None => RELEASE_BASE_URL.to_owned(),
    }
}

// ---------------------------------------------------------------------------
// What to download
// ---------------------------------------------------------------------------
/// The name of the platform that releases are built for.
pub open spec fn target_of(os: Seq<char>, arch: Seq<char>) -> Result<Seq<char>, Failure> {
    if os == "macos"@ && arch == "aarch64"@ {
        Ok("aarch64-apple-darwin"@)
    } else if os == "macos"@ && arch == "x86_64"@ {
        Ok("x86_64-apple-darwin"@)
    } else if os == "linux"@ && arch == "aarch64"@ {
        Ok("aarch64-unknown-linux-gnu"@)
    } else if os == "linux"@ && arch == "x86_64"@ {
        Ok("x86_64-unknown-linux-gnu"@)
    } else {
        Err(Failure::UnsupportedPlatform(os, arch))
    }
}

/// The name of the platform that releases are built for.
pub fn release_target(os: &str, arch: &str) -> (r: Result<String, AliazError>)
    ensures
        crate::error::seen_text(r) == target_of(os@, arch@),
{
    let macos = same_text(os, "macos");
    let linux = same_text(os, "linux");
    let arm = same_text(arch, "aarch64");
    let intel = same_text(arch, "x86_64");
    if macos && arm {
        Ok("aarch64-apple-darwin".to_owned())
    } else if macos && intel {
        Ok("x86_64-apple-darwin".to_owned())
    } else if linux && arm {
        Ok("aarch64-unknown-linux-gnu".to_owned())
    } else if linux && intel {
        Ok("x86_64-unknown-linux-gnu".to_owned())
    } else {
        Err(AliazError::UnsupportedPlatform(os.to_owned(), arch.to_owned()))
    }
}

/// What to download for an update.
#[derive(Debug)]
pub struct Release {
    pub archive_name: String,
    pub checksums_url: String,
    pub archive_url: String,
}

/// The same, as mathematics.
#[verifier::ext_equal]
pub struct ReleaseFiles {
    pub archive_name: Seq<char>,
    pub checksums_url: Seq<char>,
    pub archive_url: Seq<char>,
}

impl View for Release {
    type V = ReleaseFiles;

    open spec fn view(&self) -> ReleaseFiles {
        ReleaseFiles {
            archive_name: self.archive_name@,
            checksums_url: self.checksums_url@,
            archive_url: self.archive_url@,
        }
    }
}

/// The files of a release for a platform.
pub open spec fn release_files(base_url: Seq<char>, os: Seq<char>, arch: Seq<char>) -> Result<
    ReleaseFiles,
    Failure,
> {
    match target_of(os, arch) {
        Ok(target) => {
            let archive_name = "aliaz-"@ + target + ".tar.gz"@;
            Ok(
                ReleaseFiles {
                    archive_name: archive_name,
                    checksums_url: base_url + "/checksums.txt"@,
                    archive_url: base_url + "/"@ + archive_name,
                },
            )
        },
        Err(f) => Err(f),
    }
}

/// A result whose value is what to download.
pub open spec fn seen_release(r: Result<Release, AliazError>) -> Result<ReleaseFiles, Failure> {
    match r {
        Ok(release) => Ok(release@),
        Err(e) => Err(e@),
    }
}

/// What to download from the given place.
pub fn update_release_binary_from_base_url(base_url: &str, os: &str, arch: &str) -> (r: Result<
    Release,
    AliazError,
>)
    ensures
        seen_release(r) == release_files(base_url@, os@, arch@),
{
    match release_target(os, arch) {
        Ok(target) => {
            let archive_name = cat3("aliaz-", target.as_str(), ".tar.gz");
            let checksums_url = cat(base_url, "/checksums.txt");
            let archive_url = cat3(base_url, "/", archive_name.as_str());
            Ok(Release { archive_name, checksums_url, archive_url })
        },
        Err(e) => Err(e),
    }
}

/// What to download for an update, from the place that is named or from the usual one.
pub fn update_release_binary(named_url: Option<&str>, os: &str, arch: &str) -> (r: Result<
    Release,
    AliazError,
>)
    ensures
        seen_release(r) == release_files(
            text::seen_option(named_url).unwrap_or(RELEASE_BASE_URL@),
            os@,
            arch@,
        ),
{
    let base_url = release_base_url(named_url);
    update_release_binary_from_base_url(base_url.as_str(), os, arch)
}

/// The name of the directory in which an update is unpacked.
pub fn update_directory_name(process: u32, now: i64) -> (r: String)
    ensures
        r@ == "aliaz-update-"@ + text::decimal(process as int) + "-"@ + text::decimal(now as int),
{
    let first = count_text(process as usize);
    let second = decimal_text(now);
    let start = cat3("aliaz-update-", first.as_str(), "-");
    cat(start.as_str(), second.as_str())
}

// ---------------------------------------------------------------------------
// Checksums
// ---------------------------------------------------------------------------
/// The checksum in a line of a checksum and the name of the file it is for, which may have
/// asterisks before it. Further words do not count.
pub open spec fn checksum_in(line: Seq<char>, asset: Seq<char>) -> Option<Seq<char>> {
    let parts = text::words_of(line);
    if parts.len() >= 2 && text::without_leading(parts[1], '*') == asset {
        Some(parts[0])
    } else {
        None
    }
}

/// The checksum in the first line for a file.
pub open spec fn checksum_listed(all: Seq<Seq<char>>, asset: Seq<char>) -> Option<Seq<char>>
    decreases all.len(),
{
    if all.len() == 0 {
        None
    } else {
        match checksum_in(all[0], asset) {
            Some(checksum) => Some(checksum),
            None => checksum_listed(all.skip(1), asset),
        }
    }
}

/// The checksum of a file in a list of checksums.
pub fn checksum_for_asset(checksums: &str, asset_name: &str) -> (r: Result<String, AliazError>)
    ensures
        match checksum_listed(text::lines_of(checksums@), asset_name@) {
            Some(checksum) => r matches Ok(s) && s@ == checksum,
            None => r matches Err(e) && e@ == Failure::ChecksumNotFound(asset_name@),
        },
{
    let all = lines(checksums);
    let ghost want = text::lines_of(checksums@);
    assert(want.skip(0) =~= want);
    for i in 0..all.len()
        invariant
            text::texts(all@) == want,
            want == text::lines_of(checksums@),
            checksum_listed(want, asset_name@) == checksum_listed(
                want.skip(i as int),
                asset_name@,
            ),
    {
        assert(want.skip(i as int)[0] == all@[i as int]@);
        assert(want.skip(i as int).skip(1) =~= want.skip(i + 1));
        let parts = words(all[i].as_str());
        let ghost seen = text::words_of(all@[i as int]@);
        assert(text::texts(parts@) == seen);
        if parts.len() >= 2 {
            assert(seen[0] == parts@[0]@ && seen[1] == parts@[1]@);
            let name = strip_leading(parts[1].as_str(), '*');
            if same_text(name.as_str(), asset_name) {
                return Ok(parts[0].clone());
            }
        }
    }
    Err(AliazError::ChecksumNotFound(asset_name.to_owned()))
}

/// Accepts a digest whose hexadecimal digits are the given ones.
pub fn check_digest(digest: &[u8], expected_checksum: &str) -> (r: Result<(), AliazError>)
    ensures
        r is Ok <==> text::hex_of(digest@) == expected_checksum@,
        r matches Err(e) ==> e@ == Failure::ChecksumMismatch,
{
    let actual = hex_text(digest);
    if same_text(actual.as_str(), expected_checksum) {
        Ok(())
    } else {
        Err(AliazError::ChecksumMismatch)
    }
}

/// Accepts bytes whose SHA-256 digest has the given hexadecimal digits. Bytes that are too many to
/// be hashed are not accepted.
pub fn verify_checksum(bytes: &[u8], expected_checksum: &str) -> (r: Result<(), AliazError>)
    ensures
        r is Ok <==> bytes@.len() < HASH_LIMIT && text::hex_of(outside::sha256(bytes@))
            == expected_checksum@,
        r matches Err(e) ==> e@ == Failure::ChecksumMismatch,
{
    if bytes.len() as u64 >= HASH_LIMIT {
        return Err(AliazError::ChecksumMismatch);
    }
    let digest = sha256_digest(bytes);
    check_digest(digest.as_slice(), expected_checksum)
}

/// Accepts a directory into which a release was unpacked, where the program is in it.
pub fn extract_release_binary(program_is_there: bool) -> (r: Result<(), AliazError>)
    ensures
        r is Ok <==> program_is_there,
        r matches Err(e) ==> e@ == Failure::ArchiveWithoutBinary,
{
    if program_is_there {
        Ok(())
    } else {
        Err(AliazError::ArchiveWithoutBinary)
    }
}

// ---------------------------------------------------------------------------
// Which release is taken
// ---------------------------------------------------------------------------
/// There are releases for macOS and Linux, each on two processors. The name of the platform begins
/// with the processor and ends with the system.
pub proof fn law_target(os: Seq<char>, arch: Seq<char>)
    ensures
        target_of(os, arch) is Ok <==> (os == "macos"@ || os == "linux"@) && (arch == "aarch64"@
            || arch == "x86_64"@),
        target_of(os, arch) matches Ok(target) ==> target == arch + (if os == "macos"@ {
            "-apple-darwin"@
        } else {
            "-unknown-linux-gnu"@
        }),
        target_of(os, arch) matches Err(f) ==> f == Failure::UnsupportedPlatform(os, arch),
{
    reveal_strlit("macos");
    reveal_strlit("linux");
    reveal_strlit("aarch64");
    reveal_strlit("x86_64");
    reveal_strlit("-apple-darwin");
    reveal_strlit("-unknown-linux-gnu");
    reveal_strlit("aarch64-apple-darwin");
    reveal_strlit("x86_64-apple-darwin");
    reveal_strlit("aarch64-unknown-linux-gnu");
    reveal_strlit("x86_64-unknown-linux-gnu");
    assert("macos"@[0] != "linux"@[0]);
    assert("aarch64-apple-darwin"@ =~= "aarch64"@ + "-apple-darwin"@);
    assert("x86_64-apple-darwin"@ =~= "x86_64"@ + "-apple-darwin"@);
    assert("aarch64-unknown-linux-gnu"@ =~= "aarch64"@ + "-unknown-linux-gnu"@);
    assert("x86_64-unknown-linux-gnu"@ =~= "x86_64"@ + "-unknown-linux-gnu"@);
}

/// The files of a release lie side by side, and the archive has the name of its platform. There are
/// none for a platform without releases.
pub proof fn law_release_files(base_url: Seq<char>, os: Seq<char>, arch: Seq<char>)
    ensures
        match (release_files(base_url, os, arch), target_of(os, arch)) {
            (Ok(files), Ok(target)) => {
                &&& files.archive_name == "aliaz-"@ + target + ".tar.gz"@
                &&& files.archive_url == base_url + "/"@ + files.archive_name
                &&& files.checksums_url == base_url + "/"@ + "checksums.txt"@
            },
            (Err(f), Err(g)) => f == g,
            _ => false,
        },
{
    reveal_strlit("/");
    reveal_strlit("checksums.txt");
    reveal_strlit("/checksums.txt");
    assert(base_url + "/checksums.txt"@ =~= base_url + "/"@ + "checksums.txt"@);
}

/// The text is one word.
pub open spec fn is_word(s: Seq<char>) -> bool {
    s.len() > 0 && forall|i: int| 0 <= i < s.len() ==> !text::white(#[trigger] s[i])
}

/// A line of a checksum, white space, any number of asterisks and the name of a file has the
/// checksum of that file and of no other, whatever follows behind more white space.
pub proof fn law_checksum_line(
    checksum: Seq<char>,
    gap: char,
    stars: nat,
    name: Seq<char>,
    next_gap: char,
    rest: Seq<char>,
    asset: Seq<char>,
)
    requires
        is_word(checksum),
        is_word(name),
        name[0] != '*',
        text::white(gap),
        text::white(next_gap),
    ensures
        ({
            let marked = Seq::new(stars, |i: int| '*') + name;
            let line = checksum.push(gap) + marked;
            &&& checksum_in(line, asset) == if asset == name {
                Some(checksum)
            } else {
                None
            }
            &&& checksum_in(line.push(next_gap) + rest, asset) == checksum_in(line, asset)
        }),
{
    let run = Seq::new(stars, |i: int| '*');
    let marked = run + name;
    let line = checksum.push(gap) + marked;
    assert forall|i: int| 0 <= i < marked.len() implies !text::white(#[trigger] marked[i]) by {
        if i < stars {
            assert(marked[i] == '*');
        } else {
            assert(marked[i] == name[i - stars]);
        }
    }
    let none = Seq::<char>::empty();
    text::law_words(checksum, gap, marked);
    text::law_words(marked, gap, none);
    text::law_words(line, next_gap, rest);
    text::law_without_leading(stars, name, '*');
    let words = text::words_of(line);
    assert(words =~= seq![checksum, marked]);
    let more = text::words_of(line.push(next_gap) + rest);
    assert(more[0] == checksum && more[1] == marked);
}

/// A line of fewer than two words has no checksum.
pub proof fn law_short_line_has_no_checksum(word: Seq<char>, asset: Seq<char>)
    requires
        is_word(word),
    ensures
        checksum_in(word, asset) is None,
        checksum_in(Seq::empty(), asset) is None,
{
    text::law_words(word, ' ', Seq::empty());
}

/// The first line that has the checksum of a file decides, also where more lines follow.
pub proof fn law_first_checksum(a: Seq<Seq<char>>, b: Seq<Seq<char>>, asset: Seq<char>)
    ensures
        checksum_listed(a + b, asset) == match checksum_listed(a, asset) {
            Some(checksum) => Some(checksum),
            None => checksum_listed(b, asset),
        },
        checksum_listed(Seq::empty(), asset) is None,
        a.len() == 1 ==> checksum_listed(a, asset) == checksum_in(a[0], asset),
    decreases a.len(),
{
    if a.len() == 0 {
        assert(a + b =~= b);
    } else {
        assert((a + b)[0] == a[0]);
        assert((a + b).skip(1) =~= a.skip(1) + b);
        law_first_checksum(a.skip(1), b, asset);
        if a.len() == 1 {
            assert(a.skip(1) =~= Seq::<Seq<char>>::empty());
        }
    }
}

/// Only the words of a line count: how they are set apart, and white space around them, does not.
pub proof fn law_only_words_count(a: Seq<char>, b: Seq<char>, asset: Seq<char>)
    requires
        text::words_of(a) == text::words_of(b),
    ensures
        checksum_in(a, asset) == checksum_in(b, asset),
{
}

} // verus!
