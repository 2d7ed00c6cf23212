//! Which of the three supported encodings a file is in.
use vstd::prelude::*;

verus! {

/// The encodings this engine re-encodes.
#[derive(Clone, Copy, Debug, PartialEq, Eq, Structural)]
pub enum ImageKind {
    Png,
    Jpeg,
    WebP,
}

/// Why a file's encoding could not be resolved.
#[derive(Clone, Debug, PartialEq, Eq)]
pub enum FormatError {
    /// The path has no extension.
    NoExtension,
    /// The extension, lower-cased, names no supported encoding.
    Unsupported(String),
}

/// The human-readable text of a format error.
pub open spec fn format_message(e: FormatError) -> Seq<char> {
    match e {
        FormatError::NoExtension => "No extension"@,
        FormatError::Unsupported(ext) => "Unsupported format: "@ + ext@,
    }
}

impl FormatError {
    /// The message reported for this error: `No extension`, or
    /// `Unsupported format: <extension>`.
    pub fn message(&self) -> (r: String)
        ensures
            r@ == format_message(*self),
    {
        match self {
            FormatError::NoExtension => String::from_str("No extension"),
            FormatError::Unsupported(ext) => {
                let mut s = String::from_str("Unsupported format: ");
                s.append(ext.as_str());
                s
            },
        }
    }
}

/// What `str::to_lowercase` makes of `s` (full Unicode lower-casing).
pub uninterp spec fn lower_of(s: Seq<char>) -> Seq<char>;

/// Relies on `str::to_lowercase`: Unicode lower-casing, a function of the text alone.
#[verifier::external_body]
fn lowercase(s: &str) -> (r: String)
    ensures
        r@ == lower_of(s@),
{
    s.to_lowercase()
}

/// Character-wise equality of two strings.
pub fn text_eq(a: &str, b: &str) -> (r: bool)
    ensures
        r == (a@ == b@),
{
    let n = a.unicode_len();
    if n != b.unicode_len() {
        return false;
    }
    let mut i: usize = 0;
    while i < n
        invariant
            n == a@.len(),
            n == b@.len(),
            i <= n,
            forall|k: int| 0 <= k < i ==> a@[k] == b@[k],
        decreases n - i,
    {
        if a.get_char(i) != b.get_char(i) {
            return false;
        }
        i = i + 1;
    }
    assert(a@ =~= b@);
    true
}

pub open spec fn png_word() -> Seq<char> {
    seq!['p', 'n', 'g']
}

pub open spec fn jpg_word() -> Seq<char> {
    seq!['j', 'p', 'g']
}

pub open spec fn jpeg_word() -> Seq<char> {
    seq!['j', 'p', 'e', 'g']
}

pub open spec fn webp_word() -> Seq<char> {
    seq!['w', 'e', 'b', 'p']
}

/// The encoding that a lower-cased extension names.
pub open spec fn kind_of_extension(lower: Seq<char>) -> Option<ImageKind> {
    if lower == png_word() {
        Some(ImageKind::Png)
    } else if lower == jpg_word() || lower == jpeg_word() {
        Some(ImageKind::Jpeg)
    } else if lower == webp_word() {
        Some(ImageKind::WebP)
    } else {
        None
    }
}

/// The encoding that an already lower-cased extension names, if any.
pub fn kind_of_lowered_extension(lower: &str) -> (r: Option<ImageKind>)
    ensures
        r == kind_of_extension(lower@),
{
    proof {
        reveal_strlit("png");
        reveal_strlit("jpg");
        reveal_strlit("jpeg");
        reveal_strlit("webp");
    }
    assert("png"@ =~= png_word());
    assert("jpg"@ =~= jpg_word());
    assert("jpeg"@ =~= jpeg_word());
    assert("webp"@ =~= webp_word());
    if text_eq(lower, "png") {
        Some(ImageKind::Png)
    } else if text_eq(lower, "jpg") || text_eq(lower, "jpeg") {
        Some(ImageKind::Jpeg)
    } else if text_eq(lower, "webp") {
        Some(ImageKind::WebP)
    } else {
        None
    }
}

/// Resolves a file's encoding from its extension (`None` when the path has
/// none), compared after lower-casing: `png`; `jpg` or `jpeg`; `webp`.
pub fn detect_image_format(extension: Option<&str>) -> (r: Result<ImageKind, FormatError>)
    ensures
        extension is None ==> r == Err::<ImageKind, FormatError>(FormatError::NoExtension),
        extension matches Some(e) ==> match kind_of_extension(lower_of(e@)) {
            Some(k) => r == Ok::<ImageKind, FormatError>(k),
            None => r matches Err(FormatError::Unsupported(l)) && l@ == lower_of(e@),
        },
{
    match extension {
        None => Err(FormatError::NoExtension),
        Some(e) => {
            let lower = lowercase(e);
            match kind_of_lowered_extension(lower.as_str()) {
                Some(k) => Ok(k),
                None => Err(FormatError::Unsupported(lower)),
            }
        },
    }
}

/// ASCII lower-casing of one character; other characters are kept.
pub open spec fn ascii_lower(c: char) -> char {
    if 'A' <= c && c <= 'Z' {
        ((c as u8) + 32) as char
    } else {
        c
    }
}

/// Equality of two strings when ASCII case is ignored.
pub open spec fn ascii_case_eq(a: Seq<char>, b: Seq<char>) -> bool {
    a.len() == b.len() && forall|k: int| 0 <= k < a.len() ==> ascii_lower(a[k]) == ascii_lower(b[k])
}

fn lower_ascii_char(c: char) -> (r: char)
    ensures
        r == ascii_lower(c),
{
    if 'A' <= c && c <= 'Z' {
        ((c as u8) + 32) as char
    } else {
        c
    }
}

fn ascii_case_equal(a: &str, b: &str) -> (r: bool)
    ensures
        r == ascii_case_eq(a@, b@),
{
    let n = a.unicode_len();
    if n != b.unicode_len() {
        return false;
    }
    let mut i: usize = 0;
    while i < n
        invariant
            n == a@.len(),
            n == b@.len(),
            i <= n,
            forall|k: int| 0 <= k < i ==> ascii_lower(a@[k]) == ascii_lower(b@[k]),
        decreases n - i,
    {
        if lower_ascii_char(a.get_char(i)) != lower_ascii_char(b.get_char(i)) {
            return false;
        }
        i = i + 1;
    }
    true
}

/// Whether a declared upload format is on the allow-list, ignoring ASCII case.
pub open spec fn allowed_upload_format(f: Seq<char>) -> bool {
    ascii_case_eq(png_word(), f) || ascii_case_eq(jpg_word(), f) || ascii_case_eq(jpeg_word(), f)
        || ascii_case_eq(webp_word(), f)
}

/// Whether an upload's declared format is `png`, `jpg`, `jpeg` or `webp`,
/// ASCII case ignored.
pub fn is_allowed_upload_format(format: &str) -> (r: bool)
    ensures
        r == allowed_upload_format(format@),
{
    proof {
        reveal_strlit("png");
        reveal_strlit("jpg");
        reveal_strlit("jpeg");
        reveal_strlit("webp");
    }
    assert("png"@ =~= png_word());
    assert("jpg"@ =~= jpg_word());
    assert("jpeg"@ =~= jpeg_word());
    assert("webp"@ =~= webp_word());
    ascii_case_equal("png", format) || ascii_case_equal("jpg", format) || ascii_case_equal(
        "jpeg",
        format,
    ) || ascii_case_equal("webp", format)
}

} // verus!
