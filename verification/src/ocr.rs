//! Text recognition on screenshots: the request, the result, and the
//! normalisation of recognised text (plain text keeps its non-empty trimmed
//! lines; numeric text keeps digits and the symbols of counts, with their
//! full-width forms mapped to ASCII).
use vstd::prelude::*;
use crate::text::{chars_of, join, join_strings, lines, push_char, split_lines, string_from_chars, string_views, trim, trim_bounds, views};
use crate::vision::{decode_png_size, png_size};

verus! {

#[derive(Clone, Copy, Debug, PartialEq, Eq, Structural)]
pub enum OcrBackend {
    WindowsNative,
    Stub,
}

pub struct OcrRequest {
    pub languages: Vec<String>,
    pub numeric_only: bool,
    pub hint_text: Option<String>,
}

/// The recognition languages used when a request names none: `zh-CN`.
pub fn default_ocr_languages() -> (res: Vec<String>)
    ensures
        res@.len() == 1,
        res@[0]@ == "zh-CN"@,
{
    let mut v: Vec<String> = Vec::new();
    v.push("zh-CN".to_string());
    v
}

impl Default for OcrRequest {
    fn default() -> (res: Self)
        ensures
            res.languages@.len() == 1,
            res.languages@[0]@ == "zh-CN"@,
            !res.numeric_only,
            res.hint_text is None,
    {
        OcrRequest { languages: default_ocr_languages(), numeric_only: false, hint_text: None }
    }
}

pub struct OcrLine {
    pub text: String,
    /// The bits of the `f32` confidence, where the backend gives one.
    pub confidence: Option<u32>,
}

pub struct OcrResult {
    pub backend: OcrBackend,
    pub text: String,
    pub lines: Vec<OcrLine>,
}

#[derive(Debug)]
pub enum OcrError {
    InvalidPng { source: image::ImageError },
    BackendUnavailable { backend: OcrBackend, details: String },
}

/// What this build reports when asked to recognise text: the native
/// recognition backend exists on Windows only.
pub open spec fn stub_backend_details() -> Seq<char> {
    "当前构建目标不是 Windows，无法使用 Windows OCR 后端"@
}

/// Recognises the text of a PNG. The PNG must decode; this build has no
/// recognition backend, so a decodable PNG is answered with
/// `BackendUnavailable` for the `Stub` backend.
pub fn recognize_text_from_png(png_bytes: &[u8], request: &OcrRequest) -> (res: Result<OcrResult, OcrError>)
    ensures
        png_size(png_bytes@) is None ==> res matches Err(OcrError::InvalidPng { .. }),
        png_size(png_bytes@) is Some ==> (res matches Err(OcrError::BackendUnavailable { backend, details })
            && backend == OcrBackend::Stub && details@ == stub_backend_details()),
{
    match decode_png_size(png_bytes) {
        Err(source) => Err(OcrError::InvalidPng { source }),
        Ok(_) => Err(
            OcrError::BackendUnavailable {
                backend: OcrBackend::Stub,
                details: "当前构建目标不是 Windows，无法使用 Windows OCR 后端".to_string(),
            },
        ),
    }
}

/// What a character of recognised numeric text becomes: digits and the
/// symbols `+ - / : . % , x X` stay; their full-width and typographic forms
/// become the ASCII symbol; everything else is dropped.
pub open spec fn numeric_char(c: char) -> Option<char> {
    let v = c as u32;
    if ('0' <= c && c <= '9') || c == '+' || c == '-' || c == '/' || c == ':' || c == '.' || c == '%'
        || c == ',' || c == 'x' || c == 'X' {
        Some(c)
    } else if 0xFF10 <= v <= 0xFF19 {
        Some(((v - 0xFF10 + 48) as u32) as char)
    } else if c == '＋' {
        Some('+')
    } else if c == '－' || c == '—' || c == '–' || c == '﹣' {
        Some('-')
    } else if c == '／' {
        Some('/')
    } else if c == '：' {
        Some(':')
    } else if c == '．' || c == '。' || c == '・' || c == '·' {
        Some('.')
    } else if c == '％' {
        Some('%')
    } else if c == '，' {
        Some(',')
    } else {
        None
    }
}

/// The dashes that stand for a minus sign.
pub open spec fn typographic_dash(c: char) -> bool {
    c == '—' || c == '–' || c == '﹣'
}

/// The dots that stand for a decimal point.
pub open spec fn typographic_dot(c: char) -> bool {
    c == '。' || c == '・' || c == '·'
}

/// The ASCII digits and the symbols that numeric text keeps.
pub open spec fn numeric_ascii(c: char) -> bool {
    ('0' <= c && c <= '9') || c == '+' || c == '-' || c == '/' || c == ':' || c == '.' || c == '%' || c == ','
}

/// Law: normalising a character never changes which symbol it is. What is
/// kept is the character itself where it is ASCII, the ASCII character of
/// the same symbol where it is a full-width form (Unicode places the
/// full-width forms U+FF01 to U+FF5E 0xFEE0 above ASCII), a hyphen for a
/// dash and a period for a typographic dot. And every ASCII digit or kept
/// symbol, and every full-width form of one, is kept: a full-width comma
/// becomes a comma, never a period.
pub proof fn lemma_numeric_char_keeps_symbol(c: char)
    ensures
        numeric_char(c) matches Some(d) ==> ((c as u32) < 128 && d == c) || (0xFF01 <= (c as u32) <= 0xFF5E
            && (d as u32) == (c as u32) - 0xFEE0) || (typographic_dash(c) && d == '-') || (typographic_dot(c)
            && d == '.'),
        numeric_ascii(c) || c == 'x' || c == 'X' ==> numeric_char(c) == Some(c),
        0xFF01 <= (c as u32) <= 0xFF5E && numeric_ascii(((c as u32) - 0xFEE0) as char) ==> (numeric_char(c) matches Some(
            d,
        ) && (d as u32) == (c as u32) - 0xFEE0),
{
}

/// The numeric characters of `s`, each mapped by `numeric_char`.
pub open spec fn numeric_text(s: Seq<char>) -> Seq<char>
    decreases s.len(),
{
    if s.len() == 0 {
        seq![]
    } else {
        let prev = numeric_text(s.drop_last());
        match numeric_char(s.last()) {
            Some(c) => prev.push(c),
            None => prev,
        }
    }
}

proof fn lemma_numeric_char_fixed(c: char)
    requires
        numeric_char(c) is Some,
    ensures
        numeric_char(numeric_char(c)->Some_0) == numeric_char(c),
{
    let v = c as u32;
    if 0xFF10 <= v <= 0xFF19 {
        let d = ((v - 0xFF10 + 48) as u32) as char;
        assert('0' <= d && d <= '9');
    }
}

/// Normalising numeric text a second time changes nothing: what the first
/// pass keeps is already ASCII digits and symbols.
pub proof fn lemma_numeric_text_idempotent(s: Seq<char>)
    ensures
        numeric_text(numeric_text(s)) == numeric_text(s),
    decreases s.len(),
{
    if s.len() > 0 {
        lemma_numeric_text_idempotent(s.drop_last());
        let prev = numeric_text(s.drop_last());
        match numeric_char(s.last()) {
            Some(c) => {
                lemma_numeric_char_fixed(s.last());
                assert(prev.push(c).drop_last() =~= prev);
            },
            None => {},
        }
    }
}

/// The trimmed lines that are not empty, in order.
pub open spec fn nonempty_trimmed(ls: Seq<Seq<char>>) -> Seq<Seq<char>>
    decreases ls.len(),
{
    if ls.len() == 0 {
        seq![]
    } else {
        let prev = nonempty_trimmed(ls.drop_last());
        let t = trim(ls.last());
        if t.len() == 0 {
            prev
        } else {
            prev.push(t)
        }
    }
}

/// Recognised text as it is reported.
pub open spec fn ocr_text(s: Seq<char>, numeric_only: bool) -> Seq<char> {
    if numeric_only {
        numeric_text(s)
    } else {
        join(nonempty_trimmed(lines(s)), seq!['\n'])
    }
}

pub fn normalize_numeric_char(c: char) -> (res: Option<char>)
    ensures
        res == numeric_char(c),
{
    let v = c as u32;
    if ('0' <= c && c <= '9') || c == '+' || c == '-' || c == '/' || c == ':' || c == '.' || c == '%'
        || c == ',' || c == 'x' || c == 'X' {
        Some(c)
    } else if 0xFF10 <= v && v <= 0xFF19 {
        Some(((v - 0xFF10 + 48) as u8) as char)
    } else if c == '＋' {
        Some('+')
    } else if c == '－' || c == '—' || c == '–' || c == '﹣' {
        Some('-')
    } else if c == '／' {
        Some('/')
    } else if c == '：' {
        Some(':')
    } else if c == '．' || c == '。' || c == '・' || c == '·' {
        Some('.')
    } else if c == '％' {
        Some('%')
    } else if c == '，' {
        Some(',')
    } else {
        None
    }
}

/// Keeps the numeric characters of `text`, mapped to ASCII.
pub fn normalize_numeric_ocr_text(text: &str) -> (res: String)
    ensures
        res@ == numeric_text(text@),
{
    let chars = chars_of(text);
    let mut res = String::new();
    let mut i: usize = 0;
    while i < chars.len()
        invariant
            i <= chars@.len(),
            chars@ == text@,
            res@ == numeric_text(chars@.take(i as int)),
        decreases chars@.len() - i,
    {
        proof {
            assert(chars@.take(i + 1).drop_last() =~= chars@.take(i as int));
        }
        match normalize_numeric_char(chars[i]) {
            Some(c) => push_char(&mut res, c),
            None => {},
        }
        i += 1;
    }
    assert(chars@.take(chars@.len() as int) =~= chars@);
    res
}

/// Normalises recognised text: numeric text as `normalize_numeric_ocr_text`;
/// other text keeps its non-empty trimmed lines, joined by `\n`.
pub fn normalize_ocr_text(text: &str, numeric_only: bool) -> (res: String)
    ensures
        res@ == ocr_text(text@, numeric_only),
{
    if numeric_only {
        return normalize_numeric_ocr_text(text);
    }
    let chars = chars_of(text);
    let ls = split_lines(chars.as_slice());
    let mut parts: Vec<String> = Vec::new();
    let mut i: usize = 0;
    while i < ls.len()
        invariant
            i <= ls@.len(),
            views(ls@) == lines(text@),
            string_views(parts@) == nonempty_trimmed(views(ls@).take(i as int)),
        decreases ls@.len() - i,
    {
        proof {
            assert(views(ls@).take(i + 1).drop_last() =~= views(ls@).take(i as int));
            assert(views(ls@).take(i + 1).last() == ls@[i as int]@);
        }
        let line = ls[i].as_slice();
        let (a, b) = trim_bounds(line);
        if a < b {
            let t = string_from_chars(&line[a..b]);
            let ghost before = parts@;
            parts.push(t);
            assert(string_views(parts@) =~= string_views(before).push(t@));
        }
        i += 1;
    }
    assert(views(ls@).take(ls@.len() as int) =~= views(ls@));
    let res = join_strings(parts.as_slice(), "\n");
    proof {
        reveal_strlit("\n");
        assert("\n"@ =~= seq!['\n']);
    }
    res
}

/// The result reported for the lines a backend recognised: each line is
/// normalised and kept where not empty; the text is the kept lines joined by
/// `\n`, or, where none is kept, the backend's whole text normalised; numeric
/// text is normalised once more as a whole.
pub open spec fn ocr_lines_kept(raw: Seq<Seq<char>>, numeric_only: bool) -> Seq<Seq<char>>
    decreases raw.len(),
{
    if raw.len() == 0 {
        seq![]
    } else {
        let prev = ocr_lines_kept(raw.drop_last(), numeric_only);
        let t = ocr_text(raw.last(), numeric_only);
        if t.len() == 0 {
            prev
        } else {
            prev.push(t)
        }
    }
}

pub open spec fn ocr_result_text(raw: Seq<Seq<char>>, whole: Seq<char>, numeric_only: bool) -> Seq<char> {
    let kept = ocr_lines_kept(raw, numeric_only);
    let text = if kept.len() == 0 {
        ocr_text(whole, numeric_only)
    } else {
        join(kept, seq!['\n'])
    };
    if numeric_only {
        numeric_text(text)
    } else {
        text
    }
}

pub open spec fn line_texts(lines: Seq<OcrLine>) -> Seq<Seq<char>> {
    lines.map_values(|l: OcrLine| l.text@)
}

/// Assembles the result of the native backend from the text of each line it
/// recognised and its whole text.
pub fn build_ocr_result(raw_lines: &[String], whole_text: &str, request: &OcrRequest) -> (res: OcrResult)
    ensures
        res.backend == OcrBackend::WindowsNative,
        line_texts(res.lines@) == ocr_lines_kept(string_views(raw_lines@), request.numeric_only),
        forall|i: int| 0 <= i < res.lines@.len() ==> (#[trigger] res.lines@[i]).confidence is None,
        res.text@ == ocr_result_text(string_views(raw_lines@), whole_text@, request.numeric_only),
{
    let mut lines: Vec<OcrLine> = Vec::new();
    let mut texts: Vec<String> = Vec::new();
    let mut i: usize = 0;
    while i < raw_lines.len()
        invariant
            i <= raw_lines@.len(),
            line_texts(lines@) == ocr_lines_kept(string_views(raw_lines@).take(i as int), request.numeric_only),
            string_views(texts@) == line_texts(lines@),
            forall|j: int| 0 <= j < lines@.len() ==> (#[trigger] lines@[j]).confidence is None,
        decreases raw_lines@.len() - i,
    {
        proof {
            assert(string_views(raw_lines@).take(i + 1).drop_last() =~= string_views(raw_lines@).take(i as int));
        }
        let t = normalize_ocr_text(raw_lines[i].as_str(), request.numeric_only);
        if !t.as_str().is_empty() {
            let ghost before = lines@;
            let ghost before_texts = texts@;
            let t2 = t.clone();
            lines.push(OcrLine { text: t, confidence: None });
            texts.push(t2);
            assert(line_texts(lines@) =~= line_texts(before).push(t2@));
            assert(string_views(texts@) =~= string_views(before_texts).push(t2@));
        }
        i += 1;
    }
    assert(string_views(raw_lines@).take(raw_lines@.len() as int) =~= string_views(raw_lines@));
    let text = if texts.len() == 0 {
        normalize_ocr_text(whole_text, request.numeric_only)
    } else {
        let j = join_strings(texts.as_slice(), "\n");
        proof {
            reveal_strlit("\n");
            assert("\n"@ =~= seq!['\n']);
        }
        j
    };
    let text = if request.numeric_only {
        normalize_numeric_ocr_text(text.as_str())
    } else {
        text
    };
    OcrResult { backend: OcrBackend::WindowsNative, text, lines }
}

} // verus!
