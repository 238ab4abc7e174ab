//! Path names as the queue and the output folder see them: file names,
//! extensions, stems, and the generated output file names.
//!
//! Paths are Unix paths held as text, with `/` as the only separator.

use crate::text::{chars_of, decimal, push_char, push_decimal, spells, string_of};
use vstd::prelude::*;

verus! {

/// The characters after the last `sep` in `p` (all of `p` when there is none).
pub open spec fn after_last(p: Seq<char>, sep: char) -> Seq<char>
    decreases p.len(),
{
    if p.len() == 0 || p.last() == sep {
        seq![]
    } else {
        after_last(p.drop_last(), sep).push(p.last())
    }
}

/// The characters before the last `sep` in `p`, for a `p` that holds `sep`.
pub open spec fn before_last(p: Seq<char>, sep: char) -> Seq<char> {
    p.take(p.len() - after_last(p, sep).len() - 1)
}

/// Lengths and position of the text after the last separator.
pub proof fn lemma_after_last(p: Seq<char>, sep: char)
    ensures
        after_last(p, sep).len() <= p.len(),
        after_last(p, sep) == p.subrange(p.len() - after_last(p, sep).len(), p.len() as int),
        !after_last(p, sep).contains(sep),
        p.contains(sep) ==> after_last(p, sep).len() < p.len()
            && p[p.len() - after_last(p, sep).len() - 1] == sep,
        !p.contains(sep) ==> after_last(p, sep) == p,
    decreases p.len(),
{
    if p.len() == 0 {
        assert(p.subrange(0, 0) =~= p);
    } else if p.last() == sep {
        assert(p.contains(sep)) by {
            assert(p[p.len() - 1] == sep);
        }
    } else {
        lemma_after_last(p.drop_last(), sep);
        let a = after_last(p.drop_last(), sep);
        assert(p.subrange(p.len() - a.len() - 1, p.len() as int) =~= a.push(p.last()));
        assert(!a.push(p.last()).contains(sep)) by {
            if a.push(p.last()).contains(sep) {
                let i = choose|i: int| 0 <= i < a.push(p.last()).len() && a.push(p.last())[i] == sep;
                if i < a.len() {
                    assert(a.contains(sep));
                }
            }
        }
        if p.contains(sep) {
            let i = choose|i: int| 0 <= i < p.len() && p[i] == sep;
            assert(p.drop_last()[i] == sep);
            assert(p.drop_last().contains(sep));
        } else {
            assert(!p.drop_last().contains(sep)) by {
                if p.drop_last().contains(sep) {
                    let i = choose|i: int| 0 <= i < p.drop_last().len() && p.drop_last()[i] == sep;
                    assert(p[i] == sep);
                }
            }
            assert(p.drop_last().push(p.last()) =~= p);
        }
    }
}

/// The file name of a path, as `Path::file_name` finds it: the last
/// component, skipping empty and `.` components; none for `..`, for the root,
/// and for an empty path.
pub open spec fn file_name(p: Seq<char>) -> Option<Seq<char>>
    decreases p.len(),
{
    let last = after_last(p, '/');
    if last == seq!['.', '.'] {
        None
    } else if last.len() > 0 && last != seq!['.'] {
        Some(last)
    } else if p.contains('/') {
        proof {
            lemma_after_last(p, '/');
        }
        file_name(before_last(p, '/'))
    } else {
        None
    }
}

/// Whether a file name splits at a dot into a non-empty stem and an extension.
pub open spec fn has_extension(name: Seq<char>) -> bool {
    name.contains('.') && before_last(name, '.').len() > 0
}

/// The extension of a file name (`Path::extension`): the text after the last
/// dot, unless the name has no dot or its only dot leads it.
pub open spec fn extension(name: Seq<char>) -> Option<Seq<char>> {
    if has_extension(name) {
        Some(after_last(name, '.'))
    } else {
        None
    }
}

/// The stem of a file name (`Path::file_stem`): the text before the last dot,
/// or the whole name when it has no extension.
pub open spec fn file_stem(name: Seq<char>) -> Seq<char> {
    if has_extension(name) {
        before_last(name, '.')
    } else {
        name
    }
}

/// `c.to_ascii_lowercase()`.
pub open spec fn ascii_lower(c: char) -> char {
    if 'A' <= c && c <= 'Z' {
        ((c as int) + 32) as char
    } else {
        c
    }
}

/// `s.to_ascii_lowercase()`.
pub open spec fn ascii_lowercase(s: Seq<char>) -> Seq<char> {
    s.map_values(|c: char| ascii_lower(c))
}

/// The extensions the scanner accepts, in lower case.
pub open spec fn is_video_extension(e: Seq<char>) -> bool {
    ||| e == "mp4"@
    ||| e == "mkv"@
    ||| e == "mov"@
    ||| e == "avi"@
    ||| e == "m4v"@
    ||| e == "webm"@
    ||| e == "wmv"@
    ||| e == "mpg"@
    ||| e == "mpeg"@
    ||| e == "ts"@
    ||| e == "mts"@
    ||| e == "m2ts"@
}

/// Whether a path names a supported video: its file name has an extension
/// that, lower-cased, is one of the supported ones.
pub open spec fn names_video(path: Seq<char>) -> bool {
    match file_name(path) {
        Some(name) => has_extension(name) && is_video_extension(
            ascii_lowercase(after_last(name, '.')),
        ),
        None => false,
    }
}

/// Where the last `sep` before `end` sits: the start of the text after it.
fn segment_start(chars: &Vec<char>, end: usize, sep: char) -> (start: usize)
    requires
        end <= chars.len(),
    ensures
        start <= end,
        after_last(chars@.take(end as int), sep) == chars@.subrange(start as int, end as int),
        chars@.take(end as int).contains(sep) == (start > 0),
        start > 0 ==> before_last(chars@.take(end as int), sep) == chars@.take(start - 1),
{
    let ghost p = chars@.take(end as int);
    let mut start = end;
    while start > 0 && chars[start - 1] != sep
        invariant
            start <= end <= chars.len(),
            p == chars@.take(end as int),
            forall|i: int| start <= i < end ==> chars@[i] != sep,
        decreases start,
    {
        start = start - 1;
    }
    proof {
        lemma_after_last(p, sep);
        let a = after_last(p, sep);
        let k = p.len() - a.len();
        // The text after the last separator is exactly chars[start..end].
        if start > 0 {
            assert(p[start - 1] == sep);
            assert(p.contains(sep));
            if k < start {
                assert(a[start - 1 - k] == p[start - 1]);
                assert(a.contains(sep));
            }
            if k > start {
                assert(p[k - 1] == sep);
                assert(chars@[k - 1] != sep);
            }
            assert(k == start);
            assert(before_last(p, sep) =~= chars@.take(start - 1));
        } else {
            assert(!p.contains(sep)) by {
                if p.contains(sep) {
                    let i = choose|i: int| 0 <= i < p.len() && p[i] == sep;
                    assert(chars@[i] != sep);
                }
            }
        }
        assert(a =~= chars@.subrange(start as int, end as int));
    }
    start
}

/// The position of the file name of `chars`, if it has one.
fn file_name_span(chars: &Vec<char>) -> (r: Option<(usize, usize)>)
    ensures
        match r {
            Some((a, b)) => a <= b <= chars.len() && file_name(chars@) == Some(
                chars@.subrange(a as int, b as int),
            ),
            None => file_name(chars@) is None,
        },
{
    let mut end = chars.len();
    assert(chars@.take(end as int) =~= chars@);
    loop
        invariant
            end <= chars.len(),
            file_name(chars@) == file_name(chars@.take(end as int)),
        decreases end,
    {
        let ghost p = chars@.take(end as int);
        let start = segment_start(chars, end, '/');
        let len = end - start;
        let dots = len >= 1 && chars[start] == '.' && (len == 1 || (len == 2 && chars[start + 1] == '.'));
        proof {
            let seg = chars@.subrange(start as int, end as int);
            assert(seg == after_last(p, '/'));
            if len == 1 && chars@[start as int] == '.' {
                assert(seg =~= seq!['.']);
            }
            if len == 2 && chars@[start as int] == '.' && chars@[start + 1] == '.' {
                assert(seg =~= seq!['.', '.']);
            }
            if seg == seq!['.'] {
                assert(seg[0] == '.');
            }
            if seg == seq!['.', '.'] {
                assert(seg[0] == '.' && seg[1] == '.');
            }
        }
        if len == 2 && dots {
            return None;
        }
        if len > 0 && !dots {
            return Some((start, end));
        }
        if start == 0 {
            return None;
        }
        proof {
            assert(chars@.take(start - 1) == chars@.take((start - 1) as int));
        }
        end = start - 1;
    }
}

/// The file name of `path`, if it has one (`Path::file_name`).
pub fn file_name_of(path: &str) -> (r: Option<String>)
    ensures
        match r {
            Some(name) => file_name(path@) == Some(name@),
            None => file_name(path@) is None,
        },
{
    let chars = chars_of(path);
    match file_name_span(&chars) {
        Some((a, b)) => Some(string_of(&chars, a, b)),
        None => None,
    }
}

} // verus!

verus! {

/// Where the extension of a file name starts, if it has one.
fn extension_dot(name: &Vec<char>) -> (r: Option<usize>)
    ensures
        match r {
            Some(i) => has_extension(name@) && i < name.len() && before_last(name@, '.')
                == name@.take(i as int) && after_last(name@, '.') == name@.subrange(
                i + 1,
                name.len() as int,
            ),
            None => !has_extension(name@),
        },
{
    let start = segment_start(name, name.len(), '.');
    proof {
        assert(name@.take(name.len() as int) =~= name@);
    }
    if start >= 2 {
        Some(start - 1)
    } else {
        proof {
            if start == 1 {
                assert(name@.take(0).len() == 0);
            }
        }
        None
    }
}

/// `c.to_ascii_lowercase()`.
pub fn lower_char(c: char) -> (r: char)
    ensures
        r == ascii_lower(c),
{
    if 'A' <= c && c <= 'Z' {
        let code = c as u8;
        assert(code == c as int);
        (code + 32) as char
    } else {
        c
    }
}

/// The lower-cased text of `chars[from..]`.
fn lowercase_from(chars: &Vec<char>, from: usize) -> (r: String)
    requires
        from <= chars.len(),
    ensures
        r@ == ascii_lowercase(chars@.subrange(from as int, chars.len() as int)),
{
    let mut text = String::new();
    let mut i = from;
    while i < chars.len()
        invariant
            from <= i <= chars.len(),
            text@ == ascii_lowercase(chars@.subrange(from as int, i as int)),
        decreases chars.len() - i,
    {
        let lowered = lower_char(chars[i]);
        push_char(&mut text, lowered);
        i = i + 1;
        assert(ascii_lowercase(chars@.subrange(from as int, i as int)) =~= ascii_lowercase(
            chars@.subrange(from as int, i - 1),
        ).push(lowered));
    }
    text
}

/// Whether a lower-cased extension is one of the supported video extensions.
fn is_video_extension_text(e: &String) -> (r: bool)
    ensures
        r == is_video_extension(e@),
{
    spells(e, "mp4") || spells(e, "mkv") || spells(e, "mov") || spells(e, "avi") || spells(e, "m4v")
        || spells(e, "webm") || spells(e, "wmv") || spells(e, "mpg") || spells(e, "mpeg")
        || spells(e, "ts") || spells(e, "mts") || spells(e, "m2ts")
}

/// Returns true when the path has one of the supported video extensions,
/// compared without regard to ASCII case.
pub fn is_video(path: &str) -> (r: bool)
    ensures
        r == names_video(path@),
{
    let name = match file_name_of(path) {
        Some(name) => name,
        None => return false,
    };
    let chars = chars_of(name.as_str());
    match extension_dot(&chars) {
        Some(dot) => {
            let lowered = lowercase_from(&chars, dot + 1);
            is_video_extension_text(&lowered)
        },
        None => false,
    }
}

/// Whether a character may stay in a generated file name.
pub open spec fn is_safe_name_char(c: char) -> bool {
    ('a' <= c && c <= 'z') || ('A' <= c && c <= 'Z') || ('0' <= c && c <= '9') || c == '-' || c
        == '_'
}

/// `c` kept when it is safe in a generated file name, `_` otherwise.
pub open spec fn sanitized_char(c: char) -> char {
    if is_safe_name_char(c) {
        c
    } else {
        '_'
    }
}

/// The text of `value` with every unsafe character replaced by `_`.
pub open spec fn sanitized(value: Seq<char>) -> Seq<char> {
    value.map_values(|c: char| sanitized_char(c))
}

/// Appends `value` with every character other than ASCII letters, digits,
/// `-` and `_` replaced by `_`.
fn push_sanitized(text: &mut String, value: &str)
    ensures
        final(text)@ == old(text)@ + sanitized(value@),
{
    let chars = chars_of(value);
    let mut i: usize = 0;
    while i < chars.len()
        invariant
            i <= chars.len(),
            chars@ == value@,
            text@ == old(text)@ + sanitized(chars@.take(i as int)),
        decreases chars.len() - i,
    {
        let c = chars[i];
        let safe = ('a' <= c && c <= 'z') || ('A' <= c && c <= 'Z') || ('0' <= c && c <= '9') || c
            == '-' || c == '_';
        push_char(text, if safe { c } else { '_' });
        i = i + 1;
        assert(sanitized(chars@.take(i as int)) =~= sanitized(chars@.take(i - 1)).push(
            sanitized_char(c),
        ));
    }
    assert(chars@.take(chars.len() as int) =~= chars@);
}

/// Replaces characters that are awkward in generated temporary filenames.
pub fn sanitize_filename(value: &str) -> (r: String)
    ensures
        r@ == sanitized(value@),
{
    let mut text = String::new();
    push_sanitized(&mut text, value);
    assert(text@ =~= sanitized(value@));
    text
}

/// The name shown for a queue row: the file name, or `<unknown>` when the
/// path has none.
pub open spec fn display_name(path: Seq<char>) -> Seq<char> {
    match file_name(path) {
        Some(name) => name,
        None => "<unknown>"@,
    }
}

/// Returns only the final file name of `path`, suitable for display in the queue.
pub fn file_display_name(path: &str) -> (r: String)
    ensures
        r@ == display_name(path@),
{
    match file_name_of(path) {
        Some(name) => name,
        None => "<unknown>".to_owned(),
    }
}

/// The stem used for a source's generated files: the stem of its file name,
/// or `video` when the path has no file name.
pub open spec fn source_stem(path: Seq<char>) -> Seq<char> {
    match file_name(path) {
        Some(name) => file_stem(name),
        None => "video"@,
    }
}

/// The stem used for a source's generated files.
pub fn stem_of(path: &str) -> (r: String)
    ensures
        r@ == source_stem(path@),
{
    match file_name_of(path) {
        Some(name) => {
            let chars = chars_of(name.as_str());
            match extension_dot(&chars) {
                Some(dot) => string_of(&chars, 0, dot),
                None => {
                    assert(chars@.subrange(0, chars.len() as int) =~= chars@);
                    string_of(&chars, 0, chars.len())
                },
            }
        },
        None => "video".to_owned(),
    }
}

/// The files a source produces in its output folder.
pub struct OutputNames {
    /// The finished encode.
    pub output: String,
    /// The hidden file the encoder writes before it is promoted.
    pub partial: String,
    /// The finished contact sheet.
    pub contact_sheet: String,
    /// The hidden file the contact sheet is written to first.
    pub contact_sheet_partial: String,
}

/// `{stem}.compressed.mp4`.
pub open spec fn output_name(stem: Seq<char>) -> Seq<char> {
    stem + ".compressed.mp4"@
}

/// `.{stem}.compressed.partial.mp4`.
pub open spec fn partial_name(stem: Seq<char>) -> Seq<char> {
    "."@ + stem + ".compressed.partial.mp4"@
}

/// `{stem}.contact-sheet.jpg`.
pub open spec fn contact_sheet_name(stem: Seq<char>) -> Seq<char> {
    stem + ".contact-sheet.jpg"@
}

/// `.{stem}.contact-sheet.partial.jpg`.
pub open spec fn contact_sheet_partial_name(stem: Seq<char>) -> Seq<char> {
    "."@ + stem + ".contact-sheet.partial.jpg"@
}

/// Names the files generated for the source at `path`.
pub fn output_names(path: &str) -> (r: OutputNames)
    ensures
        r.output@ == output_name(source_stem(path@)),
        r.partial@ == partial_name(source_stem(path@)),
        r.contact_sheet@ == contact_sheet_name(source_stem(path@)),
        r.contact_sheet_partial@ == contact_sheet_partial_name(source_stem(path@)),
{
    let stem = stem_of(path);
    let mut output = stem.clone();
    output.append(".compressed.mp4");
    let mut partial = ".".to_owned();
    partial.append(stem.as_str());
    partial.append(".compressed.partial.mp4");
    let mut contact_sheet = stem.clone();
    contact_sheet.append(".contact-sheet.jpg");
    let mut contact_sheet_partial = ".".to_owned();
    contact_sheet_partial.append(stem.as_str());
    contact_sheet_partial.append(".contact-sheet.partial.jpg");
    OutputNames { output, partial, contact_sheet, contact_sheet_partial }
}

/// `{index}-{sanitized stem}.jpg`: the preview image of queue row `index`.
pub open spec fn preview_name(index: nat, path: Seq<char>) -> Seq<char> {
    decimal(index) + "-"@ + sanitized(source_stem(path)) + ".jpg"@
}

/// Names the preview image of queue row `index`.
pub fn preview_file_name(index: usize, path: &str) -> (r: String)
    ensures
        r@ == preview_name(index as nat, path@),
{
    let stem = stem_of(path);
    let mut text = String::new();
    push_decimal(&mut text, index as u64);
    text.append("-");
    push_sanitized(&mut text, stem.as_str());
    text.append(".jpg");
    assert(text@ =~= preview_name(index as nat, path@));
    text
}

} // verus!

verus! {

/// Sanitizing keeps the length, leaves only safe characters, changes no
/// name that is already safe, and so is idempotent.
pub proof fn sanitizing_is_safe_and_idempotent(value: Seq<char>)
    ensures
        sanitized(value).len() == value.len(),
        forall|i: int| 0 <= i < value.len() ==> is_safe_name_char(#[trigger] sanitized(value)[i]),
        (forall|i: int| 0 <= i < value.len() ==> is_safe_name_char(#[trigger] value[i])) ==> sanitized(value)
            == value,
        sanitized(sanitized(value)) == sanitized(value),
{
    if forall|i: int| 0 <= i < value.len() ==> is_safe_name_char(#[trigger] value[i]) {
        assert(sanitized(value) =~= value);
    }
    assert(sanitized(sanitized(value)) =~= sanitized(value));
}

/// Sanitizing works character by character: ASCII letters, digits, `-` and
/// `_` are kept where they stand, and every other character becomes `_`.
pub proof fn sanitizing_keeps_exactly_the_safe_characters(value: Seq<char>)
    ensures
        sanitized(value).len() == value.len(),
        forall|i: int|
            0 <= i < value.len() ==> #[trigger] sanitized(value)[i] == if ('a' <= value[i] <= 'z') || ('A'
                <= value[i] <= 'Z') || ('0' <= value[i] <= '9') || value[i] == '-' || value[i] == '_' {
                value[i]
            } else {
                '_'
            },
{
}

/// A file name is its stem, a dot, and its extension, when it has one.
proof fn lemma_name_parts(name: Seq<char>)
    requires
        has_extension(name),
    ensures
        name == before_last(name, '.') + seq!['.'] + after_last(name, '.'),
        !after_last(name, '.').contains('.'),
{
    lemma_after_last(name, '.');
    let a = after_last(name, '.');
    assert(name =~= before_last(name, '.') + seq!['.'] + a);
}

/// No generated file takes the source's own name, so an output folder that
/// is the input folder never has its source overwritten; the partial files
/// are hidden (their names start with a dot) and never share a name with
/// the finished files.
pub proof fn generated_names_spare_the_source(path: Seq<char>)
    requires
        file_name(path) is Some,
    ensures
        output_name(source_stem(path)) != file_name(path)->0,
        contact_sheet_name(source_stem(path)) != file_name(path)->0,
        partial_name(source_stem(path))[0] == '.',
        contact_sheet_partial_name(source_stem(path))[0] == '.',
        partial_name(source_stem(path)) != output_name(source_stem(path)),
        contact_sheet_partial_name(source_stem(path)) != contact_sheet_name(source_stem(path)),
{
    let name = file_name(path)->0;
    let stem = source_stem(path);
    reveal_strlit(".compressed.mp4");
    reveal_strlit(".compressed.partial.mp4");
    reveal_strlit(".contact-sheet.jpg");
    reveal_strlit(".contact-sheet.partial.jpg");
    reveal_strlit(".");
    assert(output_name(stem).len() == stem.len() + 15);
    assert(partial_name(stem).len() == stem.len() + 24);
    assert(contact_sheet_name(stem).len() == stem.len() + 18);
    assert(contact_sheet_partial_name(stem).len() == stem.len() + 27);
    assert(partial_name(stem)[0] == '.');
    assert(contact_sheet_partial_name(stem)[0] == '.');
    if has_extension(name) {
        lemma_name_parts(name);
        let ext = after_last(name, '.');
        if output_name(stem) == name {
            assert(output_name(stem).subrange(stem.len() as int + 1, output_name(stem).len() as int) =~= ext);
            assert(ext[10] == '.');
            assert(ext.contains('.'));
        }
        if contact_sheet_name(stem) == name {
            assert(contact_sheet_name(stem).subrange(stem.len() as int + 1, contact_sheet_name(stem).len() as int) =~= ext);
            assert(ext[13] == '.');
            assert(ext.contains('.'));
        }
    } else {
        assert(stem == name);
    }
}

} // verus!

verus! {

/// Lower-casing never makes or removes a separator.
proof fn lemma_lower_separator(c: char, sep: char)
    requires
        sep == '/' || sep == '.',
    ensures
        (ascii_lower(c) == sep) == (c == sep),
{
}

proof fn lemma_lower_after_last(p: Seq<char>, sep: char)
    requires
        sep == '/' || sep == '.',
    ensures
        after_last(ascii_lowercase(p), sep) == ascii_lowercase(after_last(p, sep)),
        ascii_lowercase(p).contains(sep) == p.contains(sep),
        ascii_lowercase(p).len() == p.len(),
    decreases p.len(),
{
    let lp = ascii_lowercase(p);
    if p.len() > 0 {
        lemma_lower_separator(p.last(), sep);
        assert(lp.drop_last() =~= ascii_lowercase(p.drop_last()));
        lemma_lower_after_last(p.drop_last(), sep);
        if p.last() != sep {
            assert(ascii_lowercase(after_last(p.drop_last(), sep).push(p.last())) =~= ascii_lowercase(
                after_last(p.drop_last(), sep),
            ).push(ascii_lower(p.last())));
        } else {
            assert(ascii_lowercase(seq![]) =~= seq![]);
        }
    } else {
        assert(ascii_lowercase(p) =~= seq![]);
    }
    if p.contains(sep) {
        let i = choose|i: int| 0 <= i < p.len() && p[i] == sep;
        assert(lp[i] == sep);
    }
    if lp.contains(sep) {
        let i = choose|i: int| 0 <= i < lp.len() && lp[i] == sep;
        lemma_lower_separator(p[i], sep);
        assert(p[i] == sep);
    }
}

proof fn lemma_lower_before_last(p: Seq<char>, sep: char)
    requires
        sep == '/' || sep == '.',
        p.contains(sep),
    ensures
        before_last(ascii_lowercase(p), sep) == ascii_lowercase(before_last(p, sep)),
{
    lemma_lower_after_last(p, sep);
    lemma_after_last(p, sep);
    let k = p.len() - after_last(p, sep).len() - 1;
    assert(after_last(ascii_lowercase(p), sep).len() == after_last(p, sep).len());
    assert(before_last(ascii_lowercase(p), sep) == ascii_lowercase(p).take(k));
    assert(before_last(ascii_lowercase(p), sep) =~= ascii_lowercase(before_last(p, sep)));
}

proof fn lemma_lower_file_name(p: Seq<char>)
    ensures
        file_name(ascii_lowercase(p)) == match file_name(p) {
            Some(name) => Some(ascii_lowercase(name)),
            None => None,
        },
    decreases p.len(),
{
    let lp = ascii_lowercase(p);
    lemma_lower_after_last(p, '/');
    let last = after_last(p, '/');
    let lower_last = ascii_lowercase(last);
    assert((lower_last == seq!['.', '.']) == (last == seq!['.', '.'])) by {
        if last.len() == 2 {
            lemma_lower_separator(last[0], '.');
            lemma_lower_separator(last[1], '.');
            if last == seq!['.', '.'] {
                assert(lower_last =~= seq!['.', '.']);
            }
            if lower_last == seq!['.', '.'] {
                assert(last =~= seq!['.', '.']);
            }
        }
    }
    assert((lower_last == seq!['.']) == (last == seq!['.'])) by {
        if last.len() == 1 {
            lemma_lower_separator(last[0], '.');
            if last == seq!['.'] {
                assert(lower_last =~= seq!['.']);
            }
            if lower_last == seq!['.'] {
                assert(last =~= seq!['.']);
            }
        }
    }
    if !(last == seq!['.', '.']) && !(last.len() > 0 && last != seq!['.']) && p.contains('/') {
        lemma_after_last(p, '/');
        lemma_lower_before_last(p, '/');
        lemma_lower_file_name(before_last(p, '/'));
    }
}

proof fn lemma_lower_twice(s: Seq<char>)
    ensures
        ascii_lowercase(ascii_lowercase(s)) == ascii_lowercase(s),
{
    assert(ascii_lowercase(ascii_lowercase(s)) =~= ascii_lowercase(s));
}

/// Whether a path names a video does not depend on the ASCII case of its
/// letters: the extension check is case-insensitive.
pub proof fn video_check_ignores_case(path: Seq<char>)
    ensures
        names_video(ascii_lowercase(path)) == names_video(path),
{
    lemma_lower_file_name(path);
    if let Some(name) = file_name(path) {
        lemma_lower_after_last(name, '.');
        if name.contains('.') {
            lemma_lower_before_last(name, '.');
            assert(before_last(ascii_lowercase(name), '.').len() == before_last(name, '.').len());
        }
        lemma_lower_twice(after_last(name, '.'));
    }
}


/// The text after the last `sep` of `prefix + tail` is `tail`'s own, when
/// `tail` holds no `sep` and `prefix` is empty or ends with `sep`.
proof fn lemma_after_last_of_tail(prefix: Seq<char>, tail: Seq<char>, sep: char)
    requires
        !tail.contains(sep),
        prefix.len() == 0 || prefix.last() == sep,
    ensures
        after_last(prefix + tail, sep) == tail,
    decreases tail.len(),
{
    if tail.len() == 0 {
        assert(prefix + tail =~= prefix);
    } else {
        assert((prefix + tail).drop_last() =~= prefix + tail.drop_last());
        assert(!tail.drop_last().contains(sep)) by {
            if tail.drop_last().contains(sep) {
                let i = choose|i: int| 0 <= i < tail.drop_last().len() && tail.drop_last()[i] == sep;
                assert(tail[i] == sep);
            }
        }
        assert(tail.last() != sep) by {
            if tail.last() == sep {
                assert(tail[tail.len() - 1] == sep);
            }
        }
        lemma_after_last_of_tail(prefix, tail.drop_last(), sep);
        assert(tail.drop_last().push(tail.last()) =~= tail);
    }
}

/// Every file whose name is a non-empty stem, a dot, and one of mp4, mkv,
/// mov, avi, m4v, webm, wmv, mpg, mpeg, ts, mts or m2ts (in any ASCII case)
/// is a video, in any folder.
pub proof fn every_supported_extension_names_a_video(folder: Seq<char>, stem: Seq<char>, ext: Seq<char>)
    requires
        folder.len() == 0 || folder.last() == '/',
        stem.len() > 0,
        !stem.contains('/'),
        ascii_lowercase(ext) == "mp4"@ || ascii_lowercase(ext) == "mkv"@ || ascii_lowercase(ext) == "mov"@ || ascii_lowercase(ext) == "avi"@ || ascii_lowercase(ext) == "m4v"@ || ascii_lowercase(ext) == "webm"@ || ascii_lowercase(ext) == "wmv"@ || ascii_lowercase(ext) == "mpg"@ || ascii_lowercase(ext) == "mpeg"@ || ascii_lowercase(ext) == "ts"@ || ascii_lowercase(ext) == "mts"@ || ascii_lowercase(ext) == "m2ts"@,
    ensures
        names_video(folder + stem + seq!['.'] + ext),
{
    reveal_strlit("mp4");
    reveal_strlit("mkv");
    reveal_strlit("mov");
    reveal_strlit("avi");
    reveal_strlit("m4v");
    reveal_strlit("webm");
    reveal_strlit("wmv");
    reveal_strlit("mpg");
    reveal_strlit("mpeg");
    reveal_strlit("ts");
    reveal_strlit("mts");
    reveal_strlit("m2ts");
    let lower = ascii_lowercase(ext);
    assert(lower.len() == ext.len());
    if lower == "mp4"@ {
        assert(lower[0] == 'm');
        assert(lower[1] == 'p');
        assert(lower[2] == '4');
    }
    if lower == "mkv"@ {
        assert(lower[0] == 'm');
        assert(lower[1] == 'k');
        assert(lower[2] == 'v');
    }
    if lower == "mov"@ {
        assert(lower[0] == 'm');
        assert(lower[1] == 'o');
        assert(lower[2] == 'v');
    }
    if lower == "avi"@ {
        assert(lower[0] == 'a');
        assert(lower[1] == 'v');
        assert(lower[2] == 'i');
    }
    if lower == "m4v"@ {
        assert(lower[0] == 'm');
        assert(lower[1] == '4');
        assert(lower[2] == 'v');
    }
    if lower == "webm"@ {
        assert(lower[0] == 'w');
        assert(lower[1] == 'e');
        assert(lower[2] == 'b');
        assert(lower[3] == 'm');
    }
    if lower == "wmv"@ {
        assert(lower[0] == 'w');
        assert(lower[1] == 'm');
        assert(lower[2] == 'v');
    }
    if lower == "mpg"@ {
        assert(lower[0] == 'm');
        assert(lower[1] == 'p');
        assert(lower[2] == 'g');
    }
    if lower == "mpeg"@ {
        assert(lower[0] == 'm');
        assert(lower[1] == 'p');
        assert(lower[2] == 'e');
        assert(lower[3] == 'g');
    }
    if lower == "ts"@ {
        assert(lower[0] == 't');
        assert(lower[1] == 's');
    }
    if lower == "mts"@ {
        assert(lower[0] == 'm');
        assert(lower[1] == 't');
        assert(lower[2] == 's');
    }
    if lower == "m2ts"@ {
        assert(lower[0] == 'm');
        assert(lower[1] == '2');
        assert(lower[2] == 't');
        assert(lower[3] == 's');
    }
    assert(forall|j: int| 0 <= j < lower.len() ==> #[trigger] lower[j] != '.' && lower[j] != '/');
    assert(!ext.contains('.') && !ext.contains('/')) by {
        if ext.contains('.') || ext.contains('/') {
            let i = choose|i: int| 0 <= i < ext.len() && (ext[i] == '.' || ext[i] == '/');
            assert(lower[i] == ascii_lower(ext[i]));
            assert(lower[i] == '.' || lower[i] == '/');
        }
    }
    assert(ext.len() >= 2);
    let name = stem + seq!['.'] + ext;
    let path = folder + stem + seq!['.'] + ext;
    assert(path =~= folder + name);
    assert(!name.contains('/')) by {
        if name.contains('/') {
            let i = choose|i: int| 0 <= i < name.len() && name[i] == '/';
            if i < stem.len() {
                assert(stem[i] == '/');
            } else if i > stem.len() {
                assert(ext[i - stem.len() - 1] == '/');
            }
        }
    }
    lemma_after_last_of_tail(folder, name, '/');
    assert(name.len() >= 4);
    assert(file_name(path) == Some(name));
    let dotted = stem + seq!['.'];
    assert(name =~= dotted + ext);
    lemma_after_last_of_tail(dotted, ext, '.');
    assert(after_last(name, '.') == ext);
    assert(name[stem.len() as int] == '.');
    assert(name.contains('.'));
    assert(before_last(name, '.') =~= stem);
    assert(is_video_extension(lower));
}

} // verus!
