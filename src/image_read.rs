//! Reading images: format and size checks before the bytes are handed back.
use vstd::prelude::*;

use crate::glob::{file_name, file_name_of};
use crate::text::{chars_of, concat, decimal, decimal_string, join, joined, string_from_chars, views};
use crate::tools::{FileFacts, ToolExecutionError, ToolExecutionOutput, ToolExecutionOutputItem};

verus! {

pub const IMAGE_READ_TOOL_DESCRIPTION_HEAD: &'static str = "
A tool for reading images.

WHEN TO USE THIS TOOL:
- Use when you want to read a file that you know is a supported image

HOW TO USE:
- Provide a list of paths to images you want to read

FEATURES:
- Able to read the following image formats: ";

pub const IMAGE_READ_TOOL_DESCRIPTION_TAIL: &'static str = "
- Can read multiple images in one go

LIMITATIONS:
- Maximum supported image size is 10 MB
";

pub const IMAGE_READ_SCHEMA: &'static str = r#"
{
    "type": "object",
    "properties": {
        "paths": {
            "type": "array",
            "description": "List of paths to images to read",
            "items": {
                "type": "string",
                "description": "Path to an image"
            }
        }
    },
    "required": [
        "paths"
    ]
}
"#;

/// The image formats that can be read.
#[derive(Debug, Clone, Copy, PartialEq, Eq, Hash, Structural)]
pub enum ImageFormat {
    Gif,
    Jpeg,
    Png,
    Webp,
}

/// Where an image's content comes from.
#[derive(Debug, Clone)]
pub enum ImageSource {
    Bytes(Vec<u8>),
}

/// An image and its format.
#[derive(Debug, Clone)]
pub struct ImageBlock {
    pub format: ImageFormat,
    pub source: ImageSource,
}

/// A request to read images.
#[derive(Debug, Clone)]
pub struct ImageRead {
    pub paths: Vec<String>,
}

/// The supported formats, as the description lists them.
pub const SUPPORTED_FORMATS: &'static str = "gif, jpeg, png, webp";

/// The tool description, naming the supported formats.
pub open spec fn image_read_description() -> Seq<char> {
    IMAGE_READ_TOOL_DESCRIPTION_HEAD@ + SUPPORTED_FORMATS@ + IMAGE_READ_TOOL_DESCRIPTION_TAIL@
}

/// The tool description, naming the supported formats.
pub fn make_tool_description() -> (r: String)
    ensures
        r@ == image_read_description(),
{
    let head = concat(IMAGE_READ_TOOL_DESCRIPTION_HEAD, SUPPORTED_FORMATS);
    concat(head.as_str(), IMAGE_READ_TOOL_DESCRIPTION_TAIL)
}

/// The largest image that can be read, in bytes.
pub const MAX_IMAGE_SIZE_BYTES: u64 = 10485760;

/// Where `c` last occurs in `s`, or -1.
pub open spec fn last_index_of(s: Seq<char>, c: char) -> int
    decreases s.len(),
{
    if s.len() == 0 {
        -1
    } else if s.last() == c {
        s.len() - 1
    } else {
        last_index_of(s.drop_last(), c)
    }
}

/// The extension of a file name: what follows its last dot, unless the
/// name has no dot or its only dot starts it.
pub open spec fn name_extension(name: Seq<char>) -> Option<Seq<char>> {
    let i = last_index_of(name, '.');
    if i <= 0 || name == ".."@ {
        None
    } else {
        Some(name.subrange(i + 1, name.len() as int))
    }
}

/// A path without the trailing separators and `.` components that do not
/// name anything.
pub open spec fn trim_path_end(s: Seq<char>) -> Seq<char>
    decreases s.len(),
{
    if s.len() > 1 && s.last() == '/' {
        trim_path_end(s.drop_last())
    } else if s.len() > 1 && s.last() == '.' && s[s.len() - 2] == '/' {
        trim_path_end(s.drop_last())
    } else {
        s
    }
}

/// The extension of a path's final component.
pub open spec fn path_extension(path: Seq<char>) -> Option<Seq<char>> {
    name_extension(file_name(trim_path_end(path)))
}

/// A character with ASCII capitals made small.
pub open spec fn lower_char(c: char) -> char {
    if 'A' <= c && c <= 'Z' {
        ((c as u8) + 32) as u8 as char
    } else {
        c
    }
}

/// The text with ASCII capitals made small.
pub open spec fn ascii_lower(s: Seq<char>) -> Seq<char> {
    s.map_values(|c: char| lower_char(c))
}

/// The format named by a lower-case extension.
pub open spec fn format_named(ext: Seq<char>) -> Option<ImageFormat> {
    if ext == "gif"@ {
        Some(ImageFormat::Gif)
    } else if ext == "jpeg"@ || ext == "jpg"@ {
        Some(ImageFormat::Jpeg)
    } else if ext == "png"@ {
        Some(ImageFormat::Png)
    } else if ext == "webp"@ {
        Some(ImageFormat::Webp)
    } else {
        None
    }
}

/// The image format of a path, read from its extension in any case.
pub open spec fn format_of_path(path: Seq<char>) -> Option<ImageFormat> {
    match path_extension(path) {
        Some(e) => format_named(ascii_lower(e)),
        None => None,
    }
}

fn last_dot(s: &Vec<char>) -> (r: Option<usize>)
    ensures
        r is None ==> last_index_of(s@, '.') == -1,
        r matches Some(i) ==> last_index_of(s@, '.') == i && i < s@.len(),
{
    let mut k = s.len();
    proof {
        assert(s@.subrange(0, s@.len() as int) == s@);
    }
    while k > 0
        invariant
            k <= s@.len(),
            last_index_of(s@, '.') == last_index_of(s@.subrange(0, k as int), '.'),
        decreases k,
    {
        let ghost t = s@.subrange(0, k as int);
        proof {
            assert(t.drop_last() == s@.subrange(0, k - 1));
        }
        if s[k - 1] == '.' {
            return Some(k - 1);
        }
        k = k - 1;
    }
    proof {
        assert(s@.subrange(0, 0) == Seq::<char>::empty());
    }
    None
}

fn text_eq(a: &Vec<char>, b: &str) -> (r: bool)
    ensures
        r == (a@ == b@),
{
    let bv = chars_of(b);
    if a.len() != bv.len() {
        assert(a@.len() != bv@.len());
        return false;
    }
    let mut i: usize = 0;
    while i < a.len()
        invariant
            a@.len() == bv@.len(),
            bv@ == b@,
            0 <= i <= a@.len(),
            forall|j: int| 0 <= j < i ==> a@[j] == bv@[j],
        decreases a@.len() - i,
    {
        if a[i] != bv[i] {
            assert(a@[i as int] != bv@[i as int]);
            return false;
        }
        i = i + 1;
    }
    assert(a@ =~= bv@);
    true
}

/// What the Unicode lower-casing of std makes of a text.
pub uninterp spec fn lower_of(s: Seq<char>) -> Seq<char>;

/// Relies on std's `str::to_lowercase`: the result depends on the text
/// alone, and ASCII text has only its capitals A to Z made small.
#[verifier::external_body]
fn to_lower(s: &str) -> (r: String)
    ensures
        r@ == lower_of(s@),
        vstd::utf8::is_ascii_chars(s@) ==> r@ == ascii_lower(s@),
{
    s.to_lowercase()
}

/// How long `s` stays once trailing separators and `.` components are cut.
fn trimmed_len(s: &Vec<char>) -> (k: usize)
    ensures
        k <= s@.len(),
        s@.subrange(0, k as int) == trim_path_end(s@),
{
    let mut k = s.len();
    proof {
        assert(s@.subrange(0, k as int) == s@);
    }
    loop
        invariant
            k <= s@.len(),
            trim_path_end(s@) == trim_path_end(s@.subrange(0, k as int)),
        ensures
            k <= s@.len(),
            trim_path_end(s@) == s@.subrange(0, k as int),
        decreases k,
    {
        let ghost t = s@.subrange(0, k as int);
        proof {
            if k > 0 {
                assert(t.drop_last() == s@.subrange(0, k - 1));
            }
        }
        if k > 1 && (s[k - 1] == '/' || (s[k - 1] == '.' && s[k - 2] == '/')) {
            k = k - 1;
        } else {
            break;
        }
    }
    k
}

/// The extension of a path, as written and lower-cased, if it has one.
fn lower_extension(path: &str) -> (r: Option<(Vec<char>, Vec<char>)>)
    ensures
        path_extension(path@) is None ==> r is None,
        path_extension(path@) matches Some(e) ==> r matches Some((raw, low)) && raw@ == e && low@
            == ascii_lower(e),
{
    let pc = chars_of(path);
    let k = trimmed_len(&pc);
    let mut head: Vec<char> = Vec::new();
    let mut m: usize = 0;
    while m < k
        invariant
            k <= pc@.len(),
            0 <= m <= k,
            head@ == pc@.subrange(0, m as int),
        decreases k - m,
    {
        head.push(pc[m]);
        proof {
            assert(pc@.subrange(0, m + 1) == pc@.subrange(0, m as int).push(pc@[m as int]));
        }
        m = m + 1;
    }
    let trimmed = string_from_chars(head.as_slice());
    let name = file_name_of(trimmed.as_str());
    let s = chars_of(name.as_str());
    if text_eq(&s, "..") {
        return None;
    }
    match last_dot(&s) {
        None => None,
        Some(i) => {
            if i == 0 {
                return None;
            }
            let n = s.len();
            assert(i < n);
            let mut v: Vec<char> = Vec::new();
            let mut raw: Vec<char> = Vec::new();
            let mut j = i + 1;
            while j < s.len()
                invariant
                    i < j <= s@.len(),
                    v@ == ascii_lower(s@.subrange(i + 1, j as int)),
                    raw@ == s@.subrange(i + 1, j as int),
                decreases s@.len() - j,
            {
                let c = s[j];
                let l = if 'A' <= c && c <= 'Z' { ((c as u8) + 32) as char } else { c };
                v.push(l);
                raw.push(c);
                proof {
                    assert(ascii_lower(s@.subrange(i + 1, j + 1)) =~= ascii_lower(s@.subrange(i + 1, j as int)).push(lower_char(c)));
                    assert(s@.subrange(i + 1, j + 1) == s@.subrange(i + 1, j as int).push(c));
                }
                j = j + 1;
            }
            Some((raw, v))
        },
    }
}

/// The image format of a path, read from its extension in any case.
pub fn image_format_of(path: &str) -> (r: Option<ImageFormat>)
    ensures
        r == format_of_path(path@),
{
    match lower_extension(path) {
        None => None,
        Some((_, e)) => {
            if text_eq(&e, "gif") {
                Some(ImageFormat::Gif)
            } else if text_eq(&e, "jpeg") || text_eq(&e, "jpg") {
                Some(ImageFormat::Jpeg)
            } else if text_eq(&e, "png") {
                Some(ImageFormat::Png)
            } else if text_eq(&e, "webp") {
                Some(ImageFormat::Webp)
            } else {
                None
            }
        },
    }
}

/// Whether the path has the extension of a supported image format.
pub fn is_supported_image_type(path: &str) -> (b: bool)
    ensures
        b == (format_of_path(path@) is Some),
{
    image_format_of(path).is_some()
}

/// Why a path cannot be read as an image, if it cannot: checked in turn,
/// its format, what its metadata says, its size.
pub open spec fn image_problem(path: Seq<char>, meta: Result<FileFacts, String>) -> Option<Seq<char>> {
    if format_of_path(path) is None {
        Some("'"@ + path + "' is not a supported image type"@)
    } else {
        match meta {
            Err(e) => Some("failed to read file metadata for path "@ + path + ": "@ + e@),
            Ok(f) => if !f.is_file {
                Some("'"@ + path + "' is not a file"@)
            } else if f.len > MAX_IMAGE_SIZE_BYTES {
                Some("'"@ + path + "' has size "@ + decimal(f.len as nat)
                    + " which is greater than the max supported size of "@ + decimal(
                    MAX_IMAGE_SIZE_BYTES as nat,
                ))
            } else {
                None
            },
        }
    }
}

/// The problems of the first `n` paths, in order.
pub open spec fn image_problems(targets: Seq<(String, Result<FileFacts, String>)>, n: int) -> Seq<Seq<char>>
    decreases n,
{
    if n <= 0 {
        Seq::empty()
    } else {
        let rest = image_problems(targets, n - 1);
        match image_problem(targets[n - 1].0@, targets[n - 1].1) {
            Some(m) => rest.push(m),
            None => rest,
        }
    }
}

fn check_image(path: &str, meta: &Result<FileFacts, String>) -> (r: Option<String>)
    ensures
        r is None <==> image_problem(path@, *meta) is None,
        r matches Some(m) ==> image_problem(path@, *meta) == Some(m@),
{
    if !is_supported_image_type(path) {
        let a = concat("'", path);
        return Some(concat(a.as_str(), "' is not a supported image type"));
    }
    match meta {
        Err(e) => {
            let a = concat("failed to read file metadata for path ", path);
            let b = concat(a.as_str(), ": ");
            Some(concat(b.as_str(), e.as_str()))
        },
        Ok(f) => {
            if !f.is_file {
                let a = concat("'", path);
                Some(concat(a.as_str(), "' is not a file"))
            } else if f.len > MAX_IMAGE_SIZE_BYTES {
                let a = concat("'", path);
                let b = concat(a.as_str(), "' has size ");
                let c = concat(b.as_str(), decimal_string(f.len as u128).as_str());
                let d = concat(c.as_str(), " which is greater than the max supported size of ");
                Some(concat(d.as_str(), decimal_string(MAX_IMAGE_SIZE_BYTES as u128).as_str()))
            } else {
                None
            }
        },
    }
}

impl ImageRead {
    /// Checks every path before reading: each target is a resolved path
    /// with what its metadata says, read without following a final
    /// symbolic link. Every problem is reported, one per line.
    pub fn validate(&self, targets: &Vec<(String, Result<FileFacts, String>)>) -> (r: Result<(), String>)
        ensures
            r is Ok <==> image_problems(targets@, targets@.len() as int).len() == 0,
            r matches Err(m) ==> m@ == joined(image_problems(targets@, targets@.len() as int), "\n"@),
    {
        let mut errors: Vec<String> = Vec::new();
        let mut i: usize = 0;
        while i < targets.len()
            invariant
                0 <= i <= targets@.len(),
                views(errors@) == image_problems(targets@, i as int),
            decreases targets@.len() - i,
        {
            let ghost before = errors@;
            match check_image(targets[i].0.as_str(), &targets[i].1) {
                Some(m) => {
                    errors.push(m);
                    proof {
                        assert(views(errors@) =~= views(before).push(errors@.last()@));
                    }
                },
                None => {},
            }
            i = i + 1;
        }
        if errors.len() > 0 {
            Err(join(&errors, "\n"))
        } else {
            Ok(())
        }
    }
}

/// Why an image cannot be read, if it cannot: checked in turn, its
/// extension, its format, its metadata and its size.
pub open spec fn read_problem(path: Seq<char>, meta: Result<FileFacts, String>) -> Option<Seq<char>> {
    match path_extension(path) {
        None => Some("missing extension"@),
        Some(e) => if format_named(ascii_lower(e)) is None {
            Some("unsupported format: "@ + lower_of(e))
        } else {
            match meta {
                Err(m) => Some("failed to read file metadata for "@ + path + ": "@ + m@),
                Ok(f) => if f.len > MAX_IMAGE_SIZE_BYTES {
                    Some("image at "@ + path + " has size "@ + decimal(f.len as nat)
                        + " bytes, but the max supported size is "@ + decimal(
                        MAX_IMAGE_SIZE_BYTES as nat,
                    ))
                } else {
                    None
                },
            }
        },
    }
}

/// Decides whether an image may be read: its format when it may, the
/// reason otherwise. `meta` is what the metadata of `path` says, read
/// without following a final symbolic link.
pub fn read_image(path: &str, meta: &Result<FileFacts, String>) -> (r: Result<ImageFormat, String>)
    ensures
        read_problem(path@, *meta) is None ==> r == Ok::<ImageFormat, String>(format_of_path(path@)->0),
        read_problem(path@, *meta) matches Some(m) ==> r matches Err(e) && e@ == m,
{
    let raw = match lower_extension(path) {
        None => {
            return Err("missing extension".to_owned());
        },
        Some((raw, _)) => raw,
    };
    let format = match image_format_of(path) {
        None => {
            let s = string_from_chars(raw.as_slice());
            let low = to_lower(s.as_str());
            return Err(concat("unsupported format: ", low.as_str()));
        },
        Some(f) => f,
    };
    match meta {
        Err(m) => {
            let a = concat("failed to read file metadata for ", path);
            let b = concat(a.as_str(), ": ");
            Err(concat(b.as_str(), m.as_str()))
        },
        Ok(f) => {
            if f.len > MAX_IMAGE_SIZE_BYTES {
                let a = concat("image at ", path);
                let b = concat(a.as_str(), " has size ");
                let c = concat(b.as_str(), decimal_string(f.len as u128).as_str());
                let d = concat(c.as_str(), " bytes, but the max supported size is ");
                Err(concat(d.as_str(), decimal_string(MAX_IMAGE_SIZE_BYTES as u128).as_str()))
            } else {
                Ok(format)
            }
        },
    }
}

/// Whatever the extension and the metadata: a path without the extension
/// of a supported format is rejected, so is a file over the size limit,
/// and a regular file of a supported format within the limit is accepted.
pub proof fn lemma_image_rejections(path: Seq<char>, meta: Result<FileFacts, String>)
    ensures
        format_of_path(path) is None ==> image_problem(path, meta) is Some && read_problem(path, meta) is Some,
        meta is Ok && meta->Ok_0.len > MAX_IMAGE_SIZE_BYTES ==> image_problem(path, meta) is Some
            && read_problem(path, meta) is Some,
        format_of_path(path) is Some && meta is Ok && meta->Ok_0.is_file && meta->Ok_0.len
            <= MAX_IMAGE_SIZE_BYTES ==> image_problem(path, meta) is None && read_problem(path, meta) is None,
{
}

/// Whether `c` is an ASCII digit.
pub open spec fn is_digit(c: char) -> bool {
    '0' <= c && c <= '9'
}

/// Whether `s` holds `n` digits from `i` on.
pub open spec fn digits_at(s: Seq<char>, i: int, n: int) -> bool {
    0 <= i && i + n <= s.len() && forall|k: int| 0 <= k < n ==> is_digit(#[trigger] s[i + k])
}

/// Whether a clock time `H.MM.SS AM` (or `PM`), with an hour of `h`
/// digits, starts at `i`.
pub open spec fn clock_at(s: Seq<char>, i: int, h: int) -> bool {
    &&& i + h + 9 <= s.len()
    &&& digits_at(s, i, h)
    &&& s[i + h] == '.'
    &&& digits_at(s, i + h + 1, 2)
    &&& s[i + h + 3] == '.'
    &&& digits_at(s, i + h + 4, 2)
    &&& s[i + h + 6] == ' '
    &&& (s[i + h + 7] == 'A' || s[i + h + 7] == 'P')
    &&& s[i + h + 8] == 'M'
}

/// Whether a macOS screenshot name, `Screenshot YYYY-MM-DD at H.MM.SS AM`,
/// starts at `i`.
pub open spec fn screenshot_at(s: Seq<char>, i: int) -> bool {
    &&& 0 <= i && i + 25 <= s.len()
    &&& s.subrange(i, i + 11) == "Screenshot "@
    &&& digits_at(s, i + 11, 4)
    &&& s[i + 15] == '-'
    &&& digits_at(s, i + 16, 2)
    &&& s[i + 18] == '-'
    &&& digits_at(s, i + 19, 2)
    &&& s.subrange(i + 21, i + 25) == " at "@
    &&& (clock_at(s, i + 25, 1) || clock_at(s, i + 25, 2))
}

/// Where `p` first occurs in `s`, or -1.
pub open spec fn first_occurrence(s: Seq<char>, p: Seq<char>) -> int
    decreases s.len(),
{
    if crate::fs_write::occurs_at(s, p, 0) {
        0
    } else if s.len() == 0 {
        -1
    } else {
        let r = first_occurrence(s.drop_first(), p);
        if r < 0 {
            -1
        } else {
            r + 1
        }
    }
}

/// A path as macOS names it on disk: in a screenshot name, the spaces
/// after the first ` at ` are narrow no-break spaces.
pub open spec fn mac_path(s: Seq<char>) -> Seq<char> {
    let pos = first_occurrence(s, " at "@);
    if (exists|i: int| screenshot_at(s, i)) && 0 <= pos && pos + 4 <= s.len() {
        s.subrange(0, pos + 4) + crate::fs_write::replace_all(
            s.subrange(pos + 4, s.len() as int),
            " "@,
            "\u{202F}"@,
        )
    } else {
        s
    }
}

fn digits(s: &Vec<char>, i: usize, n: usize) -> (b: bool)
    ensures
        b == digits_at(s@, i as int, n as int),
{
    if n > s.len() || i > s.len() - n {
        return false;
    }
    let len = s.len();
    let mut k: usize = 0;
    while k < n
        invariant
            len == s@.len(),
            i + n <= s@.len(),
            0 <= k <= n,
            forall|j: int| 0 <= j < k ==> is_digit(#[trigger] s@[i + j]),
        decreases n - k,
    {
        let c = s[i + k];
        if !('0' <= c && c <= '9') {
            assert(!is_digit(s@[i + k as int]));
            return false;
        }
        k = k + 1;
    }
    true
}

fn clock(s: &Vec<char>, i: usize, h: usize) -> (b: bool)
    requires
        h <= 2,
        i + 11 <= s@.len() + 11,
    ensures
        b == clock_at(s@, i as int, h as int),
{
    let n = s.len();
    if i > n || n - i < h + 9 {
        return false;
    }
    digits(s, i, h) && s[i + h] == '.' && digits(s, i + h + 1, 2) && s[i + h + 3] == '.' && digits(
        s,
        i + h + 4,
        2,
    ) && s[i + h + 6] == ' ' && (s[i + h + 7] == 'A' || s[i + h + 7] == 'P') && s[i + h + 8] == 'M'
}

fn screenshot(s: &Vec<char>, lead: &Vec<char>, at: &Vec<char>, i: usize) -> (b: bool)
    requires
        lead@ == "Screenshot "@,
        at@ == " at "@,
    ensures
        b == screenshot_at(s@, i as int),
{
    proof {
        reveal_strlit("Screenshot ");
        reveal_strlit(" at ");
    }
    let n = s.len();
    if i > n || n - i < 25 {
        return false;
    }
    crate::fs_write::matches_at(s, lead, i) && digits(s, i + 11, 4) && s[i + 15] == '-' && digits(
        s,
        i + 16,
        2,
    ) && s[i + 18] == '-' && digits(s, i + 19, 2) && crate::fs_write::matches_at(s, at, i + 21) && (
    clock(s, i + 25, 1) || clock(s, i + 25, 2))
}

/// Rewrites a path to the name macOS gives screenshots on disk when
/// `on_macos` holds; other paths, and all paths elsewhere, are kept.
pub fn pre_process_image_path(path: &str, on_macos: bool) -> (r: String)
    ensures
        on_macos ==> r@ == mac_path(path@),
        !on_macos ==> r@ == path@,
{
    if !on_macos {
        return path.to_owned();
    }
    let s = chars_of(path);
    let lead = chars_of("Screenshot ");
    let at = chars_of(" at ");
    proof {
        reveal_strlit(" at ");
    }
    let mut found = false;
    let mut i: usize = 0;
    while i < s.len() && !found
        invariant
            0 <= i <= s@.len(),
            lead@ == "Screenshot "@,
            at@ == " at "@,
            found ==> exists|j: int| screenshot_at(s@, j),
            !found ==> forall|j: int| 0 <= j < i ==> !screenshot_at(s@, j),
        decreases s@.len() - i + (if found { 0int } else { 1int }),
    {
        if screenshot(&s, &lead, &at, i) {
            found = true;
        } else {
            i = i + 1;
        }
    }
    proof {
        if !found {
            assert forall|j: int| !screenshot_at(s@, j) by {
                if 0 <= j < s@.len() {
                } else if j >= s@.len() {
                    assert(!(j + 25 <= s@.len()));
                }
            }
        }
    }
    if !found {
        return path.to_owned();
    }
    let mut pos: usize = 0;
    proof {
        assert(s@.skip(0) == s@);
    }
    while pos < s.len() && !(at.len() <= s.len() - pos && crate::fs_write::matches_at(&s, &at, pos))
        invariant
            0 <= pos <= s@.len(),
            at@ == " at "@,
            at@.len() == 4,
            first_occurrence(s@, at@) == if first_occurrence(s@.skip(pos as int), at@) < 0 {
                -1
            } else {
                pos + first_occurrence(s@.skip(pos as int), at@)
            },
        decreases s@.len() - pos,
    {
        proof {
            let t = s@.skip(pos as int);
            assert(t.drop_first() == s@.skip(pos + 1));
            if pos + 4 <= s@.len() {
                assert(t.subrange(0, 4) =~= s@.subrange(pos as int, pos + 4));
            }
        }
        pos = pos + 1;
    }
    proof {
        let t = s@.skip(pos as int);
        if pos < s@.len() {
            assert(t.subrange(0, 4) =~= s@.subrange(pos as int, pos + 4));
            assert(crate::fs_write::occurs_at(t, at@, 0));
        } else {
            assert(t.len() == 0);
            assert(!crate::fs_write::occurs_at(t, at@, 0));
        }
    }
    if pos >= s.len() {
        return path.to_owned();
    }
    let n = s.len();
    assert(pos + 4 <= n);
    let mut out: Vec<char> = Vec::new();
    let mut k: usize = 0;
    while k < pos + 4
        invariant
            n == s@.len(),
            pos + 4 <= s@.len(),
            0 <= k <= pos + 4,
            out@ == s@.subrange(0, k as int),
        decreases pos + 4 - k,
    {
        out.push(s[k]);
        proof {
            assert(s@.subrange(0, k + 1) == s@.subrange(0, k as int).push(s@[k as int]));
        }
        k = k + 1;
    }
    let mut tail: Vec<char> = Vec::new();
    while k < s.len()
        invariant
            pos + 4 <= k <= s@.len(),
            tail@ == s@.subrange(pos + 4, k as int),
        decreases s@.len() - k,
    {
        tail.push(s[k]);
        proof {
            assert(s@.subrange(pos + 4, k + 1) == s@.subrange(pos + 4, k as int).push(s@[k as int]));
        }
        k = k + 1;
    }
    let space = chars_of(" ");
    let nnbsp = chars_of("\u{202F}");
    let replaced = crate::fs_write::replace_all_chars(&tail, &space, &nnbsp);
    let head = string_from_chars(out.as_slice());
    let rest = string_from_chars(replaced.as_slice());
    concat(head.as_str(), rest.as_str())
}

/// The failures among the first `n` reads, in order.
pub open spec fn read_failures(rs: Seq<Result<ImageBlock, String>>, n: int) -> Seq<Seq<char>>
    decreases n,
{
    if n <= 0 {
        Seq::empty()
    } else {
        match rs[n - 1] {
            Err(e) => read_failures(rs, n - 1).push(e@),
            Ok(_) => read_failures(rs, n - 1),
        }
    }
}

/// The outcome of reading several images: all of them, or, if any failed,
/// every failure, one per line.
pub fn collect_images(results: Vec<Result<ImageBlock, String>>) -> (r: Result<ToolExecutionOutput, ToolExecutionError>)
    ensures
        (forall|i: int| 0 <= i < results@.len() ==> results@[i] is Ok) ==> (r matches Ok(out)
            && out.items@.len() == results@.len() && forall|i: int|
            0 <= i < results@.len() ==> (#[trigger] out.items@[i] matches ToolExecutionOutputItem::Image(b)
                && results@[i] == Ok::<ImageBlock, String>(b))),
        (exists|i: int| 0 <= i < results@.len() && results@[i] is Err) ==> (r matches Err(
            ToolExecutionError::Custom(m),
        ) && m@ == joined(read_failures(results@, results@.len() as int), "\n"@)),
{
    let ghost rs = results@;
    let total = results.len();
    let mut rest = results;
    let mut items: Vec<ToolExecutionOutputItem> = Vec::new();
    let mut errors: Vec<String> = Vec::new();
    let mut i: usize = 0;
    while rest.len() > 0
        invariant
            i <= rs.len(),
            i + rest@.len() == rs.len(),
            total == rs.len(),
            rest@ == rs.subrange(i as int, rs.len() as int),
            errors@.len() == 0 <==> forall|j: int| 0 <= j < i ==> rs[j] is Ok,
            views(errors@) == read_failures(rs, i as int),
            errors@.len() == 0 ==> items@.len() == i && forall|j: int|
                0 <= j < i ==> (#[trigger] items@[j] matches ToolExecutionOutputItem::Image(b)
                    && rs[j] == Ok::<ImageBlock, String>(b)),
        decreases rest@.len(),
    {
        let r = rest.remove(0);
        proof {
            assert(r == rs[i as int]);
            assert(rest@ =~= rs.subrange(i + 1, rs.len() as int));
        }
        let ghost before = errors@;
        match r {
            Ok(block) => items.push(ToolExecutionOutputItem::Image(block)),
            Err(e) => {
                errors.push(e);
                proof {
                    assert(views(errors@) =~= views(before).push(errors@.last()@));
                }
            },
        }
        i = i + 1;
    }
    if errors.len() > 0 {
        Err(ToolExecutionError::Custom(join(&errors, "\n")))
    } else {
        Ok(ToolExecutionOutput::new(items))
    }
}

} // verus!
