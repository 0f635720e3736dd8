use vstd::prelude::*;

use crate::model::{Clip, ClipModel, Project, ProjectModel, Timeline};
use crate::text::{chars_string, push_u64_digits, spec_digit_char, spec_u64_digits, str_chars};

verus! {

// ---------------------------------------------------------------------------
// The interchange document, as a sequence of characters.
//
// A project is written as one object with the fields `name`,
// `timeline.clips[]`, `created_at` and `modified_at`; each clip with the
// fields `id`, `url`, `in_point` and `out_point`. The writer emits no
// whitespace; the reader skips whitespace between tokens and accepts the
// usual character escapes inside quoted strings.
// ---------------------------------------------------------------------------
/// How one character of a string value is written inside quotes.
pub open spec fn spec_escape_char(c: char) -> Seq<char> {
    if c == '"' {
        seq!['\\', '"']
    } else if c == '\\' {
        seq!['\\', '\\']
    } else if c == '\n' {
        seq!['\\', 'n']
    } else if c == '\r' {
        seq!['\\', 'r']
    } else if c == '\t' {
        seq!['\\', 't']
    } else {
        seq![c]
    }
}

/// How a whole string value is written inside quotes.
pub open spec fn spec_escape(s: Seq<char>) -> Seq<char>
    decreases s.len(),
{
    if s.len() == 0 {
        Seq::empty()
    } else {
        spec_escape_char(s[0]) + spec_escape(s.drop_first())
    }
}

/// A quoted, escaped string value.
pub open spec fn spec_render_string(s: Seq<char>) -> Seq<char> {
    seq!['"'] + spec_escape(s) + seq!['"']
}

/// One clip object.
pub open spec fn spec_render_clip(c: ClipModel) -> Seq<char> {
    seq!['{'] + spec_render_string("id"@) + seq![':'] + spec_render_string(c.id) + seq![',']
        + spec_render_string("url"@) + seq![':'] + spec_render_string(c.url) + seq![',']
        + spec_render_string("in_point"@) + seq![':'] + spec_u64_digits(c.in_point as int)
        + seq![','] + spec_render_string("out_point"@) + seq![':']
        + spec_u64_digits(c.out_point as int) + seq!['}']
}

/// The tail of a clip array: a comma and a clip for each remaining element.
pub open spec fn spec_render_clips_rest(cs: Seq<ClipModel>) -> Seq<char>
    decreases cs.len(),
{
    if cs.len() == 0 {
        Seq::empty()
    } else {
        seq![','] + spec_render_clip(cs[0]) + spec_render_clips_rest(cs.drop_first())
    }
}

/// The elements of a clip array, separated by commas.
pub open spec fn spec_render_clips(cs: Seq<ClipModel>) -> Seq<char> {
    if cs.len() == 0 {
        Seq::empty()
    } else {
        spec_render_clip(cs[0]) + spec_render_clips_rest(cs.drop_first())
    }
}

/// The whole project document.
pub open spec fn spec_render_project(p: ProjectModel) -> Seq<char> {
    seq!['{'] + spec_render_string("name"@) + seq![':'] + spec_render_string(p.name) + seq![',']
        + spec_render_string("timeline"@) + seq![':'] + seq!['{'] + spec_render_string("clips"@)
        + seq![':'] + seq!['['] + spec_render_clips(p.clips) + seq![']'] + seq!['}'] + seq![',']
        + spec_render_string("created_at"@) + seq![':'] + spec_render_string(p.created_at)
        + seq![','] + spec_render_string("modified_at"@) + seq![':']
        + spec_render_string(p.modified_at) + seq!['}']
}

/// Escaping one more character appends that character's escape.
proof fn lemma_escape_push(a: Seq<char>, x: char)
    ensures
        spec_escape(a.push(x)) == spec_escape(a) + spec_escape_char(x),
    decreases a.len(),
{
    let s1 = a.push(x);
    if a.len() == 0 {
        assert(s1[0] == x);
        assert(s1.drop_first() =~= Seq::<char>::empty());
        assert(spec_escape(s1) == spec_escape_char(x) + spec_escape(Seq::<char>::empty()));
        assert(spec_escape(s1) =~= spec_escape(a) + spec_escape_char(x));
    } else {
        assert(s1[0] == a[0]);
        assert(s1.drop_first() =~= a.drop_first().push(x));
        lemma_escape_push(a.drop_first(), x);
        assert(spec_escape(s1) == spec_escape_char(a[0]) + (spec_escape(a.drop_first())
            + spec_escape_char(x)));
        assert(spec_escape(a) == spec_escape_char(a[0]) + spec_escape(a.drop_first()));
        assert(spec_escape(s1) =~= spec_escape(a) + spec_escape_char(x));
    }
}

/// Writing one more clip appends a separating comma except at the front.
proof fn lemma_render_clips_rest_push(a: Seq<ClipModel>, x: ClipModel)
    ensures
        spec_render_clips_rest(a.push(x)) == spec_render_clips_rest(a) + seq![',']
            + spec_render_clip(x),
    decreases a.len(),
{
    let s1 = a.push(x);
    if a.len() == 0 {
        assert(s1[0] == x);
        assert(s1.drop_first() =~= Seq::<ClipModel>::empty());
        assert(spec_render_clips_rest(s1) == seq![','] + spec_render_clip(x)
            + spec_render_clips_rest(Seq::<ClipModel>::empty()));
        assert(spec_render_clips_rest(s1) =~= spec_render_clips_rest(a) + seq![',']
            + spec_render_clip(x));
    } else {
        assert(s1[0] == a[0]);
        assert(s1.drop_first() =~= a.drop_first().push(x));
        lemma_render_clips_rest_push(a.drop_first(), x);
        assert(spec_render_clips_rest(s1) == seq![','] + spec_render_clip(a[0])
            + (spec_render_clips_rest(a.drop_first()) + seq![','] + spec_render_clip(x)));
        assert(spec_render_clips_rest(a) == seq![','] + spec_render_clip(a[0])
            + spec_render_clips_rest(a.drop_first()));
        assert(spec_render_clips_rest(s1) =~= spec_render_clips_rest(a) + seq![',']
            + spec_render_clip(x));
    }
}

proof fn lemma_render_clips_push(a: Seq<ClipModel>, x: ClipModel)
    ensures
        a.len() == 0 ==> spec_render_clips(a.push(x)) == spec_render_clip(x),
        a.len() > 0 ==> spec_render_clips(a.push(x)) == spec_render_clips(a) + seq![',']
            + spec_render_clip(x),
{
    let s1 = a.push(x);
    if a.len() == 0 {
        assert(s1[0] == x);
        assert(s1.drop_first() =~= Seq::<ClipModel>::empty());
        assert(spec_render_clips(s1) == spec_render_clip(x)
            + spec_render_clips_rest(Seq::<ClipModel>::empty()));
        assert(spec_render_clips(s1) =~= spec_render_clip(x));
    } else {
        assert(s1[0] == a[0]);
        assert(s1.drop_first() =~= a.drop_first().push(x));
        lemma_render_clips_rest_push(a.drop_first(), x);
        assert(spec_render_clips(s1) == spec_render_clip(a[0])
            + (spec_render_clips_rest(a.drop_first()) + seq![','] + spec_render_clip(x)));
        assert(spec_render_clips(a) == spec_render_clip(a[0])
            + spec_render_clips_rest(a.drop_first()));
        assert(spec_render_clips(s1) =~= spec_render_clips(a) + seq![',']
            + spec_render_clip(x));
    }
}

/// Appends the escaped characters of `s` to `out`.
fn push_escaped(out: &mut Vec<char>, s: &str)
    ensures
        final(out)@ == old(out)@ + spec_escape(s@),
{
    let chars = str_chars(s);
    let ghost sv = s@;
    let mut i: usize = 0;
    proof {
        assert(sv.take(0) =~= Seq::<char>::empty());
        assert(out@ =~= old(out)@ + spec_escape(sv.take(0)));
    }
    while i < chars.len()
        invariant
            chars@ == sv,
            i <= chars.len(),
            out@ == old(out)@ + spec_escape(sv.take(i as int)),
        decreases chars.len() - i,
    {
        let c = chars[i];
        if c == '"' {
            out.push('\\');
            out.push('"');
        } else if c == '\\' {
            out.push('\\');
            out.push('\\');
        } else if c == '\n' {
            out.push('\\');
            out.push('n');
        } else if c == '\r' {
            out.push('\\');
            out.push('r');
        } else if c == '\t' {
            out.push('\\');
            out.push('t');
        } else {
            out.push(c);
        }
        proof {
            lemma_escape_push(sv.take(i as int), c);
            assert(sv.take(i as int).push(c) =~= sv.take(i as int + 1));
            assert(out@ =~= old(out)@ + spec_escape(sv.take(i as int + 1)));
        }
        i = i + 1;
    }
    proof {
        assert(sv.take(chars@.len() as int) =~= sv);
    }
}

/// Appends a quoted, escaped string value to `out`.
fn push_quoted(out: &mut Vec<char>, s: &str)
    ensures
        final(out)@ == old(out)@ + spec_render_string(s@),
{
    out.push('"');
    push_escaped(out, s);
    out.push('"');
    proof {
        assert(out@ =~= old(out)@ + spec_render_string(s@));
    }
}

/// Appends one clip object to `out`.
fn push_clip(out: &mut Vec<char>, c: &Clip)
    ensures
        final(out)@ == old(out)@ + spec_render_clip(c@),
{
    out.push('{');
    push_quoted(out, "id");
    out.push(':');
    push_quoted(out, c.id.as_str());
    out.push(',');
    push_quoted(out, "url");
    out.push(':');
    push_quoted(out, c.url.as_str());
    out.push(',');
    push_quoted(out, "in_point");
    out.push(':');
    push_u64_digits(out, c.in_point);
    out.push(',');
    push_quoted(out, "out_point");
    out.push(':');
    push_u64_digits(out, c.out_point);
    out.push('}');
    proof {
        assert(out@ =~= old(out)@ + spec_render_clip(c@));
    }
}

/// Writes the project as one interchange document.
#[verifier::rlimit(60)]
pub fn project_to_json(p: &Project) -> (r: String)
    ensures
        r@ == spec_render_project(p@),
{
    let mut out: Vec<char> = Vec::new();
    out.push('{');
    push_quoted(&mut out, "name");
    out.push(':');
    push_quoted(&mut out, p.name.as_str());
    out.push(',');
    push_quoted(&mut out, "timeline");
    out.push(':');
    out.push('{');
    push_quoted(&mut out, "clips");
    out.push(':');
    out.push('[');
    let ghost base = out@;
    let clips = &p.timeline.clips;
    let ghost cv = p.timeline@;
    let mut i: usize = 0;
    proof {
        assert(cv.take(0) =~= Seq::<ClipModel>::empty());
    }
    while i < clips.len()
        invariant
            i <= clips.len(),
            cv == p.timeline@,
            cv.len() == clips@.len(),
            forall|j: int| 0 <= j < clips@.len() ==> cv[j] == clips@[j]@,
            out@ == base + spec_render_clips(cv.take(i as int)),
        decreases clips.len() - i,
    {
        if i > 0 {
            out.push(',');
        }
        push_clip(&mut out, &clips[i]);
        proof {
            lemma_render_clips_push(cv.take(i as int), cv[i as int]);
            assert(cv.take(i as int).push(cv[i as int]) =~= cv.take(i as int + 1));
            assert(out@ =~= base + spec_render_clips(cv.take(i as int + 1)));
        }
        i = i + 1;
    }
    proof {
        assert(cv.take(clips@.len() as int) =~= cv);
    }
    out.push(']');
    out.push('}');
    out.push(',');
    push_quoted(&mut out, "created_at");
    out.push(':');
    push_quoted(&mut out, p.created_at.as_str());
    out.push(',');
    push_quoted(&mut out, "modified_at");
    out.push(':');
    push_quoted(&mut out, p.modified_at.as_str());
    out.push('}');
    proof {
        assert(out@ =~= spec_render_project(p@));
    }
    chars_string(&out)
}

// ---------------------------------------------------------------------------
// Reading a document back. Every reader returns the parsed value and the
// position just past what it consumed, or `None` for malformed input.
// ---------------------------------------------------------------------------
/// Whitespace the reader skips between tokens.
pub open spec fn spec_is_ws(c: char) -> bool {
    c == ' ' || c == '\n' || c == '\r' || c == '\t'
}

/// The first position at or after `i` that does not hold whitespace.
pub open spec fn spec_skip_ws(s: Seq<char>, i: int) -> int
    decreases s.len() - i,
{
    if 0 <= i < s.len() && spec_is_ws(s[i]) {
        spec_skip_ws(s, i + 1)
    } else {
        i
    }
}

/// The character stood for by a backslash escape code.
pub open spec fn spec_unescape_char(c: char) -> Option<char> {
    if c == '"' {
        Some('"')
    } else if c == '\\' {
        Some('\\')
    } else if c == '/' {
        Some('/')
    } else if c == 'n' {
        Some('\n')
    } else if c == 'r' {
        Some('\r')
    } else if c == 't' {
        Some('\t')
    } else {
        None
    }
}

/// The value of a decimal digit character.
pub open spec fn spec_digit_val(c: char) -> Option<int> {
    if c == '0' {
        Some(0)
    } else if c == '1' {
        Some(1)
    } else if c == '2' {
        Some(2)
    } else if c == '3' {
        Some(3)
    } else if c == '4' {
        Some(4)
    } else if c == '5' {
        Some(5)
    } else if c == '6' {
        Some(6)
    } else if c == '7' {
        Some(7)
    } else if c == '8' {
        Some(8)
    } else if c == '9' {
        Some(9)
    } else {
        None
    }
}

pub open spec fn spec_is_digit(c: char) -> bool {
    spec_digit_val(c) is Some
}

/// The characters of a quoted string read from just inside its opening quote
/// up to and past its closing quote.
pub open spec fn spec_parse_string_body(s: Seq<char>, i: int) -> Option<(Seq<char>, int)>
    decreases s.len() - i,
{
    if i < 0 || i >= s.len() {
        None
    } else if s[i] == '"' {
        Some((Seq::empty(), i + 1))
    } else if s[i] == '\\' {
        if i + 1 < s.len() {
            match spec_unescape_char(s[i + 1]) {
                Some(d) => match spec_parse_string_body(s, i + 2) {
                    Some(t) => Some((seq![d] + t.0, t.1)),
                    None => None,
                },
                None => None,
            }
        } else {
            None
        }
    } else {
        match spec_parse_string_body(s, i + 1) {
            Some(t) => Some((seq![s[i]] + t.0, t.1)),
            None => None,
        }
    }
}

/// A quoted string value starting exactly at `i`.
pub open spec fn spec_parse_string(s: Seq<char>, i: int) -> Option<(Seq<char>, int)> {
    if 0 <= i < s.len() && s[i] == '"' {
        spec_parse_string_body(s, i + 1)
    } else {
        None
    }
}

/// The end of the run of decimal digits starting at `i`.
pub open spec fn spec_digit_run_end(s: Seq<char>, i: int) -> int
    decreases s.len() - i,
{
    if 0 <= i < s.len() && spec_is_digit(s[i]) {
        spec_digit_run_end(s, i + 1)
    } else {
        i
    }
}

/// The value of the digits in `[i, j)`, read most significant first.
pub open spec fn spec_dec_val(s: Seq<char>, i: int, j: int) -> int
    decreases j - i,
{
    if j <= i {
        0
    } else {
        spec_dec_val(s, i, j - 1) * 10 + (match spec_digit_val(s[j - 1]) {
            Some(d) => d,
            None => 0,
        })
    }
}

/// An unsigned number starting exactly at `i`: the maximal digit run, provided
/// it is non-empty and its value is representable.
pub open spec fn spec_parse_u64(s: Seq<char>, i: int) -> Option<(u64, int)> {
    let e = spec_digit_run_end(s, i);
    if e == i {
        None
    } else if spec_dec_val(s, i, e) > u64::MAX {
        None
    } else {
        Some((spec_dec_val(s, i, e) as u64, e))
    }
}

/// One expected punctuation character, after optional whitespace.
pub open spec fn spec_expect(s: Seq<char>, i: int, c: char) -> Option<int> {
    let j = spec_skip_ws(s, i);
    if 0 <= j < s.len() && s[j] == c {
        Some(j + 1)
    } else {
        None
    }
}

/// An object key: the exact quoted key, then a colon, whitespace allowed.
pub open spec fn spec_parse_key(s: Seq<char>, i: int, key: Seq<char>) -> Option<int> {
    let j = spec_skip_ws(s, i);
    match spec_parse_string(s, j) {
        Some(t) => if t.0 == key {
            spec_expect(s, t.1, ':')
        } else {
            None
        },
        None => None,
    }
}

/// A string value after optional whitespace.
pub open spec fn spec_parse_value_string(s: Seq<char>, i: int) -> Option<(Seq<char>, int)> {
    spec_parse_string(s, spec_skip_ws(s, i))
}

/// A number value after optional whitespace.
pub open spec fn spec_parse_value_u64(s: Seq<char>, i: int) -> Option<(u64, int)> {
    spec_parse_u64(s, spec_skip_ws(s, i))
}

/// A `"key": "string"` field.
pub open spec fn spec_parse_string_field(s: Seq<char>, i: int, key: Seq<char>) -> Option<
    (Seq<char>, int),
> {
    match spec_parse_key(s, i, key) {
        Some(j) => spec_parse_value_string(s, j),
        None => None,
    }
}

/// A `"key": number` field.
pub open spec fn spec_parse_u64_field(s: Seq<char>, i: int, key: Seq<char>) -> Option<(u64, int)> {
    match spec_parse_key(s, i, key) {
        Some(j) => spec_parse_value_u64(s, j),
        None => None,
    }
}

/// One clip object: `{"id": ..., "url": ..., "in_point": ..., "out_point": ...}`.
pub open spec fn spec_parse_clip(s: Seq<char>, i: int) -> Option<(ClipModel, int)> {
    match spec_expect(s, i, '{') {
        Some(a) => match spec_parse_string_field(s, a, "id"@) {
            Some(id) => match spec_expect(s, id.1, ',') {
                Some(b) => match spec_parse_string_field(s, b, "url"@) {
                    Some(url) => match spec_expect(s, url.1, ',') {
                        Some(c) => match spec_parse_u64_field(s, c, "in_point"@) {
                            Some(inp) => match spec_expect(s, inp.1, ',') {
                                Some(d) => match spec_parse_u64_field(s, d, "out_point"@) {
                                    Some(outp) => match spec_expect(s, outp.1, '}') {
                                        Some(e) => Some(
                                            (
                                                ClipModel {
                                                    id: id.0,
                                                    url: url.0,
                                                    in_point: inp.0,
                                                    out_point: outp.0,
                                                },
                                                e,
                                            ),
                                        ),
                                        None => None,
                                    },
                                    None => None,
                                },
                                None => None,
                            },
                            None => None,
                        },
                        None => None,
                    },
                    None => None,
                },
                None => None,
            },
            None => None,
        },
        None => None,
    }
}

/// The clip array after its first element: either the closing bracket, or a
/// comma and a further clip, repeatedly.
pub open spec fn spec_parse_clips_rest(s: Seq<char>, i: int) -> Option<(Seq<ClipModel>, int)>
    decreases s.len() - i,
{
    let j = spec_skip_ws(s, i);
    if 0 <= j < s.len() && s[j] == ']' {
        Some((Seq::empty(), j + 1))
    } else if 0 <= j < s.len() && s[j] == ',' {
        match spec_parse_clip(s, j + 1) {
            Some(c) => if i < c.1 && c.1 <= s.len() {
                match spec_parse_clips_rest(s, c.1) {
                    Some(t) => Some((seq![c.0] + t.0, t.1)),
                    None => None,
                }
            } else {
                None
            },
            None => None,
        }
    } else {
        None
    }
}

/// A whole clip array, read from just inside its opening bracket.
pub open spec fn spec_parse_clips(s: Seq<char>, i: int) -> Option<(Seq<ClipModel>, int)> {
    let j = spec_skip_ws(s, i);
    if 0 <= j < s.len() && s[j] == ']' {
        Some((Seq::empty(), j + 1))
    } else {
        match spec_parse_clip(s, i) {
            Some(c) => match spec_parse_clips_rest(s, c.1) {
                Some(t) => Some((seq![c.0] + t.0, t.1)),
                None => None,
            },
            None => None,
        }
    }
}

/// A whole project object.
pub open spec fn spec_parse_project(s: Seq<char>, i: int) -> Option<(ProjectModel, int)> {
    match spec_expect(s, i, '{') {
        Some(a) => match spec_parse_string_field(s, a, "name"@) {
            Some(name) => match spec_expect(s, name.1, ',') {
                Some(b) => match spec_parse_key(s, b, "timeline"@) {
                    Some(c) => match spec_expect(s, c, '{') {
                        Some(d) => match spec_parse_key(s, d, "clips"@) {
                            Some(e) => match spec_expect(s, e, '[') {
                                Some(f) => match spec_parse_clips(s, f) {
                                    Some(clips) => match spec_expect(s, clips.1, '}') {
                                        Some(g) => match spec_expect(s, g, ',') {
                                            Some(h) => match spec_parse_string_field(
                                                s,
                                                h,
                                                "created_at"@,
                                            ) {
                                                Some(created) => match spec_expect(
                                                    s,
                                                    created.1,
                                                    ',',
                                                ) {
                                                    Some(k) => match spec_parse_string_field(
                                                        s,
                                                        k,
                                                        "modified_at"@,
                                                    ) {
                                                        Some(modified) => match spec_expect(
                                                            s,
                                                            modified.1,
                                                            '}',
                                                        ) {
                                                            Some(l) => Some(
                                                                (
                                                                    ProjectModel {
                                                                        name: name.0,
                                                                        clips: clips.0,
                                                                        created_at: created.0,
                                                                        modified_at: modified.0,
                                                                    },
                                                                    l,
                                                                ),
                                                            ),
                                                            None => None,
                                                        },
                                                        None => None,
                                                    },
                                                    None => None,
                                                },
                                                None => None,
                                            },
                                            None => None,
                                        },
                                        None => None,
                                    },
                                    None => None,
                                },
                                None => None,
                            },
                            None => None,
                        },
                        None => None,
                    },
                    None => None,
                },
                None => None,
            },
            None => None,
        },
        None => None,
    }
}

/// A whole document: one project object and nothing but trailing whitespace.
pub open spec fn spec_parse_document(s: Seq<char>) -> Option<ProjectModel> {
    match spec_parse_project(s, 0) {
        Some(t) => if spec_skip_ws(s, t.1) == s.len() {
            Some(t.0)
        } else {
            None
        },
        None => None,
    }
}

/// Prefixing the parsed characters of a string body.
pub open spec fn spec_prepend(a: Seq<char>, r: Option<(Seq<char>, int)>) -> Option<
    (Seq<char>, int),
> {
    match r {
        Some(t) => Some((a + t.0, t.1)),
        None => None,
    }
}

proof fn lemma_prepend_empty(r: Option<(Seq<char>, int)>)
    ensures
        spec_prepend(Seq::empty(), r) == r,
{
    match r {
        Some(t) => {
            assert(Seq::<char>::empty() + t.0 =~= t.0);
        },
        None => {},
    }
}

proof fn lemma_prepend_step(a: Seq<char>, d: char, r: Option<(Seq<char>, int)>)
    ensures
        spec_prepend(a, spec_prepend(seq![d], r)) == spec_prepend(a.push(d), r),
{
    match r {
        Some(t) => {
            assert(a + (seq![d] + t.0) =~= a.push(d) + t.0);
        },
        None => {},
    }
}

proof fn lemma_dec_val_nonneg(s: Seq<char>, i: int, j: int)
    ensures
        spec_dec_val(s, i, j) >= 0,
    decreases j - i,
{
    if j > i {
        lemma_dec_val_nonneg(s, i, j - 1);
    }
}

/// Reading more digits can only grow the value.
proof fn lemma_dec_val_mono(s: Seq<char>, i: int, j: int, e: int)
    requires
        i <= j <= e,
    ensures
        spec_dec_val(s, i, e) >= spec_dec_val(s, i, j),
    decreases e - j,
{
    if e > j {
        lemma_dec_val_mono(s, i, j, e - 1);
        lemma_dec_val_nonneg(s, i, e - 1);
    }
}

proof fn lemma_digit_run_end_bounds(s: Seq<char>, i: int)
    requires
        0 <= i <= s.len(),
    ensures
        i <= spec_digit_run_end(s, i) <= s.len(),
    decreases s.len() - i,
{
    if i < s.len() && spec_is_digit(s[i]) {
        lemma_digit_run_end_bounds(s, i + 1);
    }
}

/// The first non-whitespace position at or after `i`.
fn skip_ws_x(s: &Vec<char>, i: usize) -> (j: usize)
    ensures
        j as int == spec_skip_ws(s@, i as int),
        i <= j,
        j <= s.len() || j == i,
{
    let mut j = i;
    while j < s.len() && (s[j] == ' ' || s[j] == '\n' || s[j] == '\r' || s[j] == '\t')
        invariant
            i <= j,
            j <= s.len() || j == i,
            spec_skip_ws(s@, i as int) == spec_skip_ws(s@, j as int),
        decreases s.len() - j,
    {
        j = j + 1;
    }
    j
}

/// One expected punctuation character, after optional whitespace.
fn expect_x(s: &Vec<char>, i: usize, c: char) -> (r: Option<usize>)
    ensures
        match (r, spec_expect(s@, i as int, c)) {
            (Some(j), Some(sj)) => j as int == sj && j <= s@.len(),
            (None, None) => true,
            _ => false,
        },
{
    let j = skip_ws_x(s, i);
    if j < s.len() && s[j] == c {
        Some(j + 1)
    } else {
        None
    }
}

fn unescape_char_x(c: char) -> (r: Option<char>)
    ensures
        r == spec_unescape_char(c),
{
    if c == '"' {
        Some('"')
    } else if c == '\\' {
        Some('\\')
    } else if c == '/' {
        Some('/')
    } else if c == 'n' {
        Some('\n')
    } else if c == 'r' {
        Some('\r')
    } else if c == 't' {
        Some('\t')
    } else {
        None
    }
}

fn digit_val_x(c: char) -> (r: Option<u64>)
    ensures
        match (r, spec_digit_val(c)) {
            (Some(d), Some(sd)) => d as int == sd,
            (None, None) => true,
            _ => false,
        },
{
    if c == '0' {
        Some(0)
    } else if c == '1' {
        Some(1)
    } else if c == '2' {
        Some(2)
    } else if c == '3' {
        Some(3)
    } else if c == '4' {
        Some(4)
    } else if c == '5' {
        Some(5)
    } else if c == '6' {
        Some(6)
    } else if c == '7' {
        Some(7)
    } else if c == '8' {
        Some(8)
    } else if c == '9' {
        Some(9)
    } else {
        None
    }
}

/// A quoted string value starting exactly at `i`.
fn parse_string_x(s: &Vec<char>, i: usize) -> (r: Option<(Vec<char>, usize)>)
    ensures
        match (r, spec_parse_string(s@, i as int)) {
            (Some(v), Some(sv)) => v.0@ == sv.0 && v.1 as int == sv.1 && v.1 <= s@.len(),
            (None, None) => true,
            _ => false,
        },
{
    if i >= s.len() || s[i] != '"' {
        return None;
    }
    let mut acc: Vec<char> = Vec::new();
    let mut pos = i + 1;
    proof {
        lemma_prepend_empty(spec_parse_string_body(s@, pos as int));
        assert(acc@ =~= Seq::<char>::empty());
    }
    while pos < s.len()
        invariant
            i as int + 1 <= pos as int,
            pos <= s.len(),
            spec_parse_string(s@, i as int) == spec_prepend(
                acc@,
                spec_parse_string_body(s@, pos as int),
            ),
        decreases s.len() - pos,
    {
        let c = s[pos];
        if c == '"' {
            proof {
                assert(acc@ + Seq::<char>::empty() =~= acc@);
            }
            return Some((acc, pos + 1));
        } else if c == '\\' {
            if pos + 1 >= s.len() {
                return None;
            }
            match unescape_char_x(s[pos + 1]) {
                None => {
                    return None;
                },
                Some(d) => {
                    proof {
                        assert(spec_parse_string_body(s@, pos as int) == spec_prepend(
                            seq![d],
                            spec_parse_string_body(s@, pos as int + 2),
                        ));
                        lemma_prepend_step(acc@, d, spec_parse_string_body(s@, pos as int + 2));
                    }
                    acc.push(d);
                    pos = pos + 2;
                },
            }
        } else {
            proof {
                assert(spec_parse_string_body(s@, pos as int) == spec_prepend(
                    seq![c],
                    spec_parse_string_body(s@, pos as int + 1),
                ));
                lemma_prepend_step(acc@, c, spec_parse_string_body(s@, pos as int + 1));
            }
            acc.push(c);
            pos = pos + 1;
        }
    }
    None
}

/// One step of decimal accumulation, widened so it cannot overflow.
fn mul10_add(acc: u64, d: u64) -> (r: u128)
    ensures
        r as int == acc as int * 10 + d as int,
{
    acc as u128 * 10 + d as u128
}

/// An unsigned number starting exactly at `i`.
fn parse_u64_x(s: &Vec<char>, i: usize) -> (r: Option<(u64, usize)>)
    ensures
        match (r, spec_parse_u64(s@, i as int)) {
            (Some(v), Some(sv)) => v.0 == sv.0 && v.1 as int == sv.1 && v.1 <= s@.len(),
            (None, None) => true,
            _ => false,
        },
{
    if i >= s.len() {
        return None;
    }
    let d0 = digit_val_x(s[i]);
    let mut acc: u64 = 0;
    match d0 {
        None => {
            return None;
        },
        Some(d) => {
            acc = d;
        },
    }
    let mut pos = i + 1;
    proof {
        assert(spec_is_digit(s@[i as int]));
        assert(spec_digit_run_end(s@, i as int) == spec_digit_run_end(s@, i as int + 1));
        assert(spec_dec_val(s@, i as int, i as int + 1) == spec_dec_val(s@, i as int, i as int)
            * 10 + acc);
    }
    while pos < s.len()
        invariant
            i < pos,
            pos <= s.len(),
            i < s@.len() && spec_is_digit(s@[i as int]),
            spec_digit_run_end(s@, i as int) == spec_digit_run_end(s@, pos as int),
            acc as int == spec_dec_val(s@, i as int, pos as int),
        decreases s.len() - pos,
    {
        let dn = digit_val_x(s[pos]);
        match dn {
            None => {
                proof {
                    assert(!spec_is_digit(s@[pos as int]));
                    assert(spec_digit_run_end(s@, pos as int) == pos as int);
                    lemma_dec_val_nonneg(s@, i as int, pos as int);
                    assert(spec_digit_run_end(s@, i as int) == pos as int);
                    assert(spec_dec_val(s@, i as int, pos as int) == acc as int);
                    assert(spec_dec_val(s@, i as int, spec_digit_run_end(s@, i as int)) as u64
                        == acc);
                    assert(spec_parse_u64(s@, i as int) == Some((acc, pos as int)));
                }
                return Some((acc, pos));
            },
            Some(d) => {
                proof {
                    assert(spec_is_digit(s@[pos as int]));
                    assert(spec_digit_run_end(s@, pos as int) == spec_digit_run_end(
                        s@,
                        pos as int + 1,
                    ));
                    assert(spec_dec_val(s@, i as int, pos as int + 1) == spec_dec_val(
                        s@,
                        i as int,
                        pos as int,
                    ) * 10 + d);
                }
                let wide: u128 = mul10_add(acc, d);
                proof {
                    assert(wide as int == spec_dec_val(s@, i as int, pos as int + 1));
                }
                if wide > u64::MAX as u128 {
                    proof {
                        lemma_digit_run_end_bounds(s@, pos as int + 1);
                        lemma_dec_val_mono(s@, i as int, pos as int + 1, spec_digit_run_end(
                            s@,
                            i as int,
                        ));
                        assert(spec_dec_val(s@, i as int, spec_digit_run_end(s@, i as int))
                            > u64::MAX);
                    }
                    return None;
                }
                acc = wide as u64;
                pos = pos + 1;
            },
        }
    }
    proof {
        assert(spec_digit_run_end(s@, pos as int) == pos as int);
        lemma_dec_val_nonneg(s@, i as int, pos as int);
    }
    Some((acc, pos))
}

fn chars_eq(a: &Vec<char>, b: &Vec<char>) -> (r: bool)
    ensures
        r == (a@ == b@),
{
    if a.len() != b.len() {
        return false;
    }
    let mut i: usize = 0;
    while i < a.len()
        invariant
            i <= a.len(),
            a@.len() == b@.len(),
            forall|j: int| 0 <= j < i as int ==> a@[j] == b@[j],
        decreases a.len() - i,
    {
        if a[i] != b[i] {
            return false;
        }
        i = i + 1;
    }
    proof {
        assert(a@ =~= b@);
    }
    true
}

/// An object key equal to `key`, then a colon.
fn parse_key_x(s: &Vec<char>, i: usize, key: &Vec<char>) -> (r: Option<usize>)
    ensures
        match (r, spec_parse_key(s@, i as int, key@)) {
            (Some(j), Some(sj)) => j as int == sj && j <= s@.len(),
            (None, None) => true,
            _ => false,
        },
{
    let j = skip_ws_x(s, i);
    match parse_string_x(s, j) {
        None => None,
        Some((k, e)) => {
            if chars_eq(&k, key) {
                expect_x(s, e, ':')
            } else {
                None
            }
        },
    }
}

/// A `"key": "string"` field.
fn parse_string_field_x(s: &Vec<char>, i: usize, key: &Vec<char>) -> (r: Option<(Vec<char>, usize)>)
    ensures
        match (r, spec_parse_string_field(s@, i as int, key@)) {
            (Some(v), Some(sv)) => v.0@ == sv.0 && v.1 as int == sv.1 && v.1 <= s@.len(),
            (None, None) => true,
            _ => false,
        },
{
    match parse_key_x(s, i, key) {
        None => None,
        Some(j) => {
            let j2 = skip_ws_x(s, j);
            parse_string_x(s, j2)
        },
    }
}

/// A `"key": number` field.
fn parse_u64_field_x(s: &Vec<char>, i: usize, key: &Vec<char>) -> (r: Option<(u64, usize)>)
    ensures
        match (r, spec_parse_u64_field(s@, i as int, key@)) {
            (Some(v), Some(sv)) => v.0 == sv.0 && v.1 as int == sv.1 && v.1 <= s@.len(),
            (None, None) => true,
            _ => false,
        },
{
    match parse_key_x(s, i, key) {
        None => None,
        Some(j) => {
            let j2 = skip_ws_x(s, j);
            parse_u64_x(s, j2)
        },
    }
}

/// One clip object.
fn parse_clip_x(s: &Vec<char>, i: usize) -> (r: Option<(Clip, usize)>)
    ensures
        match (r, spec_parse_clip(s@, i as int)) {
            (Some(v), Some(sv)) => v.0@ == sv.0 && v.1 as int == sv.1 && v.1 <= s@.len(),
            (None, None) => true,
            _ => false,
        },
{
    let a = match expect_x(s, i, '{') {
        Some(t) => t,
        None => {
            return None;
        },
    };
    let (idv, b) = match parse_string_field_x(s, a, &str_chars("id")) {
        Some(t) => t,
        None => {
            return None;
        },
    };
    let c = match expect_x(s, b, ',') {
        Some(t) => t,
        None => {
            return None;
        },
    };
    let (urlv, d) = match parse_string_field_x(s, c, &str_chars("url")) {
        Some(t) => t,
        None => {
            return None;
        },
    };
    let e = match expect_x(s, d, ',') {
        Some(t) => t,
        None => {
            return None;
        },
    };
    let (inp, f) = match parse_u64_field_x(s, e, &str_chars("in_point")) {
        Some(t) => t,
        None => {
            return None;
        },
    };
    let g = match expect_x(s, f, ',') {
        Some(t) => t,
        None => {
            return None;
        },
    };
    let (outp, h) = match parse_u64_field_x(s, g, &str_chars("out_point")) {
        Some(t) => t,
        None => {
            return None;
        },
    };
    let k = match expect_x(s, h, '}') {
        Some(t) => t,
        None => {
            return None;
        },
    };
    let clip = Clip {
        id: chars_string(&idv),
        url: chars_string(&urlv),
        in_point: inp,
        out_point: outp,
    };
    Some((clip, k))
}

/// Prefixing already-parsed clips of an array.
pub open spec fn spec_prepend_clips(a: Seq<ClipModel>, r: Option<(Seq<ClipModel>, int)>) -> Option<
    (Seq<ClipModel>, int),
> {
    match r {
        Some(t) => Some((a + t.0, t.1)),
        None => None,
    }
}

proof fn lemma_prepend_clips_step(a: Seq<ClipModel>, c: ClipModel, r: Option<(Seq<ClipModel>, int)>)
    ensures
        spec_prepend_clips(a, spec_prepend_clips(seq![c], r)) == spec_prepend_clips(a.push(c), r),
{
    match r {
        Some(t) => {
            assert(a + (seq![c] + t.0) =~= a.push(c) + t.0);
        },
        None => {},
    }
}

/// A whole clip array, read from just inside its opening bracket.
fn parse_clips_x(s: &Vec<char>, i: usize) -> (r: Option<(Vec<Clip>, usize)>)
    ensures
        match (r, spec_parse_clips(s@, i as int)) {
            (Some(v), Some(sv)) => crate::model::clips_view(v.0@) == sv.0 && v.1 as int == sv.1
                && v.1 <= s@.len(),
            (None, None) => true,
            _ => false,
        },
{
    let j = skip_ws_x(s, i);
    if j < s.len() && s[j] == ']' {
        let out: Vec<Clip> = Vec::new();
        proof {
            assert(crate::model::clips_view(out@) =~= Seq::<ClipModel>::empty());
        }
        return Some((out, j + 1));
    }
    let (first, k) = match parse_clip_x(s, i) {
        Some(t) => t,
        None => {
            return None;
        },
    };
    let mut acc: Vec<Clip> = Vec::new();
    acc.push(first);
    let mut pos = k;
    proof {
        assert(crate::model::clips_view(acc@) =~= seq![first@]);
        assert(spec_parse_clips(s@, i as int) == spec_prepend_clips(
            crate::model::clips_view(acc@),
            spec_parse_clips_rest(s@, pos as int),
        ));
    }
    loop
        invariant
            pos <= s.len(),
            spec_parse_clips(s@, i as int) == spec_prepend_clips(
                crate::model::clips_view(acc@),
                spec_parse_clips_rest(s@, pos as int),
            ),
        decreases s.len() - pos,
    {
        let j2 = skip_ws_x(s, pos);
        if j2 < s.len() && s[j2] == ']' {
            proof {
                assert(spec_parse_clips_rest(s@, pos as int) == Some(
                    (Seq::<ClipModel>::empty(), j2 as int + 1),
                ));
                assert(crate::model::clips_view(acc@) + Seq::<ClipModel>::empty()
                    =~= crate::model::clips_view(acc@));
            }
            return Some((acc, j2 + 1));
        }
        if !(j2 < s.len() && s[j2] == ',') {
            return None;
        }
        let (c2, k2) = match parse_clip_x(s, j2 + 1) {
            Some(t) => t,
            None => {
                return None;
            },
        };
        if !(pos < k2 && k2 <= s.len()) {
            return None;
        }
        proof {
            assert(spec_parse_clips_rest(s@, pos as int) == spec_prepend_clips(
                seq![c2@],
                spec_parse_clips_rest(s@, k2 as int),
            ));
            lemma_prepend_clips_step(
                crate::model::clips_view(acc@),
                c2@,
                spec_parse_clips_rest(s@, k2 as int),
            );
            assert(crate::model::clips_view(acc@.push(c2)) =~= crate::model::clips_view(
                acc@,
            ).push(c2@));
        }
        acc.push(c2);
        pos = k2;
    }
}

/// A whole project object.
fn parse_project_x(s: &Vec<char>, i: usize) -> (r: Option<(Project, usize)>)
    ensures
        match (r, spec_parse_project(s@, i as int)) {
            (Some(v), Some(sv)) => v.0@ == sv.0 && v.1 as int == sv.1 && v.1 <= s@.len(),
            (None, None) => true,
            _ => false,
        },
{
    let a = match expect_x(s, i, '{') {
        Some(t) => t,
        None => {
            return None;
        },
    };
    let (namev, b) = match parse_string_field_x(s, a, &str_chars("name")) {
        Some(t) => t,
        None => {
            return None;
        },
    };
    let c = match expect_x(s, b, ',') {
        Some(t) => t,
        None => {
            return None;
        },
    };
    let d = match parse_key_x(s, c, &str_chars("timeline")) {
        Some(t) => t,
        None => {
            return None;
        },
    };
    let e = match expect_x(s, d, '{') {
        Some(t) => t,
        None => {
            return None;
        },
    };
    let f = match parse_key_x(s, e, &str_chars("clips")) {
        Some(t) => t,
        None => {
            return None;
        },
    };
    let g = match expect_x(s, f, '[') {
        Some(t) => t,
        None => {
            return None;
        },
    };
    let (clips, h) = match parse_clips_x(s, g) {
        Some(t) => t,
        None => {
            return None;
        },
    };
    let k = match expect_x(s, h, '}') {
        Some(t) => t,
        None => {
            return None;
        },
    };
    let l = match expect_x(s, k, ',') {
        Some(t) => t,
        None => {
            return None;
        },
    };
    let (createdv, m) = match parse_string_field_x(s, l, &str_chars("created_at")) {
        Some(t) => t,
        None => {
            return None;
        },
    };
    let n = match expect_x(s, m, ',') {
        Some(t) => t,
        None => {
            return None;
        },
    };
    let (modifiedv, o) = match parse_string_field_x(s, n, &str_chars("modified_at")) {
        Some(t) => t,
        None => {
            return None;
        },
    };
    let q = match expect_x(s, o, '}') {
        Some(t) => t,
        None => {
            return None;
        },
    };
    let project = Project {
        name: chars_string(&namev),
        timeline: Timeline { clips },
        created_at: chars_string(&createdv),
        modified_at: chars_string(&modifiedv),
    };
    Some((project, q))
}

/// Reads a whole document back into a project. `None` reports a malformed
/// document; the caller's state is then left untouched.
pub fn project_from_json(s: &str) -> (r: Option<Project>)
    ensures
        match spec_parse_document(s@) {
            Some(pm) => r is Some && r.unwrap()@ == pm,
            None => r is None,
        },
{
    let chars = str_chars(s);
    match parse_project_x(&chars, 0) {
        Some((p, e)) => {
            let j = skip_ws_x(&chars, e);
            if j == chars.len() {
                Some(p)
            } else {
                None
            }
        },
        None => None,
    }
}

// ---------------------------------------------------------------------------
// Round trip: a document written by the renderer reads back as the same
// project.
// ---------------------------------------------------------------------------
/// `p` is exactly the text of `s` at offset `i`.
pub open spec fn spec_piece_at(s: Seq<char>, i: int, p: Seq<char>) -> bool {
    0 <= i && i + p.len() <= s.len() && s.subrange(i, i + p.len() as int) == p
}

proof fn lemma_piece_split(s: Seq<char>, i: int, a: Seq<char>, b: Seq<char>)
    requires
        spec_piece_at(s, i, a + b),
    ensures
        spec_piece_at(s, i, a),
        spec_piece_at(s, i + a.len(), b),
{
    let ab = a + b;
    assert forall|k: int| 0 <= k < ab.len() implies s[i + k] == ab[k] by {
        assert(s.subrange(i, i + ab.len() as int)[k] == ab[k]);
    }
    assert forall|k: int| 0 <= k < a.len() implies s.subrange(i, i + a.len() as int)[k] == a[k] by {
        assert(s[i + k] == ab[k]);
        assert(ab[k] == a[k]);
    }
    assert(s.subrange(i, i + a.len() as int) =~= a);
    assert forall|k: int| 0 <= k < b.len() implies s.subrange(
        i + a.len(),
        i + a.len() + b.len() as int,
    )[k] == b[k] by {
        assert(s[i + a.len() + k] == ab[a.len() + k]);
        assert(ab[a.len() + k] == b[k]);
    }
    assert(s.subrange(i + a.len(), i + a.len() + b.len() as int) =~= b);
}

proof fn lemma_piece_char(s: Seq<char>, i: int, c: char)
    requires
        spec_piece_at(s, i, seq![c]),
    ensures
        0 <= i < s.len() && s[i] == c,
{
    assert(s.subrange(i, i + 1)[0] == seq![c][0]);
}

/// Parsing a string body written by the escaper recovers the original
/// characters and stops just past the closing quote.
proof fn lemma_parse_body_at(s: Seq<char>, i: int, t: Seq<char>)
    requires
        spec_piece_at(s, i, spec_escape(t) + seq!['"']),
    ensures
        spec_parse_string_body(s, i) == Some((t, i + spec_escape(t).len() + 1)),
    decreases t.len(),
{
    if t.len() == 0 {
        assert(spec_escape(t) + seq!['"'] =~= seq!['"']);
        lemma_piece_char(s, i, '"');
        assert(spec_parse_string_body(s, i) == Some((Seq::<char>::empty(), i + 1)));
        assert(Seq::<char>::empty() =~= t);
    } else {
        let c = t[0];
        let ec = spec_escape_char(c);
        let tr = t.drop_first();
        assert(spec_escape(t) == ec + spec_escape(tr));
        assert(spec_escape(t) + seq!['"'] =~= ec + (spec_escape(tr) + seq!['"']));
        lemma_piece_split(s, i, ec, spec_escape(tr) + seq!['"']);
        lemma_parse_body_at(s, i + ec.len(), tr);
        if c == '"' || c == '\\' || c == '\n' || c == '\r' || c == '\t' {
            assert(ec.len() == 2);
            assert(s.subrange(i, i + 2)[0] == ec[0]);
            assert(s.subrange(i, i + 2)[1] == ec[1]);
            assert(s[i] == '\\');
            assert(spec_unescape_char(s[i + 1]) == Some(c));
            assert(seq![c] + tr =~= t);
        } else {
            assert(ec.len() == 1);
            assert(s.subrange(i, i + 1)[0] == ec[0]);
            assert(s[i] == c);
            assert(seq![c] + tr =~= t);
        }
    }
}

/// Parsing a rendered string yields the original value.
proof fn lemma_parse_string_at(s: Seq<char>, i: int, t: Seq<char>)
    requires
        spec_piece_at(s, i, spec_render_string(t)),
    ensures
        spec_parse_string(s, i) == Some((t, i + spec_render_string(t).len())),
{
    assert(spec_render_string(t) =~= seq!['"'] + (spec_escape(t) + seq!['"']));
    lemma_piece_split(s, i, seq!['"'], spec_escape(t) + seq!['"']);
    lemma_piece_char(s, i, '"');
    lemma_parse_body_at(s, i + 1, t);
}

proof fn lemma_digits_props(n: int)
    requires
        n >= 0,
    ensures
        spec_u64_digits(n).len() >= 1,
        forall|k: int| 0 <= k < spec_u64_digits(n).len() ==> spec_is_digit(spec_u64_digits(n)[k]),
    decreases n,
{
    if n < 10 {
        assert(spec_is_digit(spec_digit_char(n)));
    } else {
        lemma_digits_props(n / 10);
        assert(0 <= n % 10 < 10);
        assert(spec_is_digit(spec_digit_char(n % 10)));
    }
}

/// The decimal digits of `n` read back as the value `n`.
proof fn lemma_dec_val_of_digits(s: Seq<char>, i: int, n: int)
    requires
        n >= 0,
        spec_piece_at(s, i, spec_u64_digits(n)),
    ensures
        spec_dec_val(s, i, i + spec_u64_digits(n).len()) == n,
    decreases n,
{
    if n < 10 {
        assert(spec_u64_digits(n) =~= seq![spec_digit_char(n)]);
        lemma_piece_char(s, i, spec_digit_char(n));
        assert(spec_dec_val(s, i, i + 1) == spec_dec_val(s, i, i) * 10 + n);
    } else {
        let hd = spec_u64_digits(n / 10);
        assert(spec_u64_digits(n) =~= hd + seq![spec_digit_char(n % 10)]);
        lemma_piece_split(s, i, hd, seq![spec_digit_char(n % 10)]);
        lemma_dec_val_of_digits(s, i, n / 10);
        lemma_piece_char(s, i + hd.len(), spec_digit_char(n % 10));
        vstd::arithmetic::div_mod::lemma_fundamental_div_mod(n, 10);
        assert(spec_dec_val(s, i, i + hd.len() + 1) == spec_dec_val(s, i, i + hd.len()) * 10 + (n
            % 10));
    }
}

proof fn lemma_run_end_all(s: Seq<char>, i: int, j: int)
    requires
        0 <= i <= j <= s.len(),
        forall|k: int| i <= k < j ==> spec_is_digit(s[k]),
        j == s.len() || !spec_is_digit(s[j]),
    ensures
        spec_digit_run_end(s, i) == j,
    decreases j - i,
{
    if i < j {
        lemma_run_end_all(s, i + 1, j);
    }
}

/// Parsing rendered digits yields the original number, provided no digit
/// follows them.
proof fn lemma_parse_u64_at(s: Seq<char>, i: int, n: u64)
    requires
        spec_piece_at(s, i, spec_u64_digits(n as int)),
        i + spec_u64_digits(n as int).len() == s.len() || !spec_is_digit(
            s[i + spec_u64_digits(n as int).len()],
        ),
    ensures
        spec_parse_u64(s, i) == Some((n, i + spec_u64_digits(n as int).len())),
{
    let ds = spec_u64_digits(n as int);
    let l = ds.len() as int;
    lemma_digits_props(n as int);
    assert forall|k: int| i <= k < i + l implies spec_is_digit(s[k]) by {
        assert(s.subrange(i, i + l)[k - i] == ds[k - i]);
    }
    lemma_run_end_all(s, i, i + l);
    lemma_dec_val_of_digits(s, i, n as int);
}

/// Parsing a rendered key and colon succeeds and lands just past the colon.
proof fn lemma_parse_key_at(s: Seq<char>, i: int, key: Seq<char>)
    requires
        spec_piece_at(s, i, spec_render_string(key) + seq![':']),
    ensures
        spec_parse_key(s, i, key) == Some(i + spec_render_string(key).len() + 1),
{
    let rk = spec_render_string(key);
    lemma_piece_split(s, i, rk, seq![':']);
    lemma_parse_string_at(s, i, key);
    lemma_piece_char(s, i + rk.len(), ':');
    assert(s.subrange(i, i + rk.len() as int)[0] == rk[0]);
    assert(s[i] == '"');
    assert(spec_skip_ws(s, i) == i);
    assert(spec_skip_ws(s, i + rk.len()) == i + rk.len());
}

/// Parsing a rendered string field yields the original value.
proof fn lemma_parse_string_field_at(s: Seq<char>, i: int, key: Seq<char>, v: Seq<char>)
    requires
        spec_piece_at(s, i, spec_render_string(key) + seq![':'] + spec_render_string(v)),
    ensures
        spec_parse_string_field(s, i, key) == Some(
            (v, i + spec_render_string(key).len() + 1 + spec_render_string(v).len()),
        ),
{
    let rk = spec_render_string(key);
    let rv = spec_render_string(v);
    assert(rk + seq![':'] + rv =~= (rk + seq![':']) + rv);
    lemma_piece_split(s, i, rk + seq![':'], rv);
    lemma_parse_key_at(s, i, key);
    let o = i + rk.len() + 1;
    lemma_parse_string_at(s, o, v);
    assert(s.subrange(o, o + rv.len() as int)[0] == rv[0]);
    assert(s[o] == '"');
    assert(spec_skip_ws(s, o) == o);
}

/// Parsing a rendered number field yields the original value, provided no
/// digit follows the field.
proof fn lemma_parse_u64_field_at(s: Seq<char>, i: int, key: Seq<char>, n: u64)
    requires
        spec_piece_at(s, i, spec_render_string(key) + seq![':'] + spec_u64_digits(n as int)),
        i + spec_render_string(key).len() + 1 + spec_u64_digits(n as int).len() == s.len()
            || !spec_is_digit(
            s[i + spec_render_string(key).len() + 1 + spec_u64_digits(n as int).len()],
        ),
    ensures
        spec_parse_u64_field(s, i, key) == Some(
            (n, i + spec_render_string(key).len() + 1 + spec_u64_digits(n as int).len()),
        ),
{
    let rk = spec_render_string(key);
    let ds = spec_u64_digits(n as int);
    assert(rk + seq![':'] + ds =~= (rk + seq![':']) + ds);
    lemma_piece_split(s, i, rk + seq![':'], ds);
    lemma_parse_key_at(s, i, key);
    let o = i + rk.len() + 1;
    lemma_digits_props(n as int);
    assert(s.subrange(o, o + ds.len() as int)[0] == ds[0]);
    assert(spec_is_digit(s[o]));
    assert(!spec_is_ws(s[o]));
    assert(spec_skip_ws(s, o) == o);
    lemma_parse_u64_at(s, o, n);
}

/// Parsing a rendered clip object yields the original clip.
proof fn lemma_parse_clip_at(s: Seq<char>, i: int, c: ClipModel)
    requires
        spec_piece_at(s, i, spec_render_clip(c)),
    ensures
        spec_parse_clip(s, i) == Some((c, i + spec_render_clip(c).len())),
{
    let f1 = spec_render_string("id"@) + seq![':'] + spec_render_string(c.id);
    let f2 = spec_render_string("url"@) + seq![':'] + spec_render_string(c.url);
    let f3 = spec_render_string("in_point"@) + seq![':'] + spec_u64_digits(c.in_point as int);
    let f4 = spec_render_string("out_point"@) + seq![':'] + spec_u64_digits(c.out_point as int);
    assert(spec_render_clip(c) =~= seq!['{'] + f1 + seq![','] + f2 + seq![','] + f3 + seq![',']
        + f4 + seq!['}']);
    lemma_piece_split(s, i, seq!['{'] + f1 + seq![','] + f2 + seq![','] + f3 + seq![','] + f4,
        seq!['}']);
    lemma_piece_split(s, i, seq!['{'] + f1 + seq![','] + f2 + seq![','] + f3 + seq![','], f4);
    lemma_piece_split(s, i, seq!['{'] + f1 + seq![','] + f2 + seq![','] + f3, seq![',']);
    lemma_piece_split(s, i, seq!['{'] + f1 + seq![','] + f2 + seq![','], f3);
    lemma_piece_split(s, i, seq!['{'] + f1 + seq![','] + f2, seq![',']);
    lemma_piece_split(s, i, seq!['{'] + f1 + seq![','], f2);
    lemma_piece_split(s, i, seq!['{'] + f1, seq![',']);
    lemma_piece_split(s, i, seq!['{'], f1);
    let o1 = i + 1;
    let o2 = o1 + f1.len();
    let o3 = o2 + 1;
    let o4 = o3 + f2.len();
    let o5 = o4 + 1;
    let o6 = o5 + f3.len();
    let o7 = o6 + 1;
    let o8 = o7 + f4.len();
    lemma_piece_char(s, i, '{');
    assert(spec_skip_ws(s, i) == i);
    lemma_parse_string_field_at(s, o1, "id"@, c.id);
    lemma_piece_char(s, o2, ',');
    assert(spec_skip_ws(s, o2) == o2);
    lemma_parse_string_field_at(s, o3, "url"@, c.url);
    lemma_piece_char(s, o4, ',');
    assert(spec_skip_ws(s, o4) == o4);
    lemma_piece_char(s, o6, ',');
    assert(!spec_is_digit(s[o6]));
    lemma_parse_u64_field_at(s, o5, "in_point"@, c.in_point);
    assert(spec_skip_ws(s, o6) == o6);
    lemma_piece_char(s, o8, '}');
    assert(!spec_is_digit(s[o8]));
    lemma_parse_u64_field_at(s, o7, "out_point"@, c.out_point);
    assert(spec_skip_ws(s, o8) == o8);
    assert(spec_parse_clip(s, i) == Some(
        (
            ClipModel { id: c.id, url: c.url, in_point: c.in_point, out_point: c.out_point },
            o8 + 1,
        ),
    ));
    assert(ClipModel { id: c.id, url: c.url, in_point: c.in_point, out_point: c.out_point }
        =~= c);
}

/// Parsing the rendered tail of a clip array yields the remaining clips.
proof fn lemma_parse_clips_rest_at(s: Seq<char>, i: int, cs: Seq<ClipModel>)
    requires
        spec_piece_at(s, i, spec_render_clips_rest(cs) + seq![']']),
    ensures
        spec_parse_clips_rest(s, i) == Some((cs, i + spec_render_clips_rest(cs).len() + 1)),
    decreases cs.len(),
{
    if cs.len() == 0 {
        assert(spec_render_clips_rest(cs) + seq![']'] =~= seq![']']);
        lemma_piece_char(s, i, ']');
        assert(spec_skip_ws(s, i) == i);
        assert(cs =~= Seq::<ClipModel>::empty());
    } else {
        let rc = spec_render_clip(cs[0]);
        let tail = spec_render_clips_rest(cs.drop_first());
        assert(spec_render_clips_rest(cs) == seq![','] + rc + tail);
        assert(spec_render_clips_rest(cs) + seq![']'] =~= seq![','] + (rc + (tail + seq![']'])));
        lemma_piece_split(s, i, seq![','], rc + (tail + seq![']']));
        lemma_piece_split(s, i + 1, rc, tail + seq![']']);
        lemma_piece_char(s, i, ',');
        assert(spec_skip_ws(s, i) == i);
        lemma_parse_clip_at(s, i + 1, cs[0]);
        let k = i + 1 + rc.len();
        lemma_parse_clips_rest_at(s, k, cs.drop_first());
        assert(seq![cs[0]] + cs.drop_first() =~= cs);
    }
}

/// Parsing a rendered clip array yields the original clips.
proof fn lemma_parse_clips_at(s: Seq<char>, i: int, cs: Seq<ClipModel>)
    requires
        spec_piece_at(s, i, spec_render_clips(cs) + seq![']']),
    ensures
        spec_parse_clips(s, i) == Some((cs, i + spec_render_clips(cs).len() + 1)),
{
    if cs.len() == 0 {
        assert(spec_render_clips(cs) + seq![']'] =~= seq![']']);
        lemma_piece_char(s, i, ']');
        assert(spec_skip_ws(s, i) == i);
        assert(cs =~= Seq::<ClipModel>::empty());
    } else {
        let rc = spec_render_clip(cs[0]);
        let tail = spec_render_clips_rest(cs.drop_first());
        assert(spec_render_clips(cs) == rc + tail);
        assert(spec_render_clips(cs) + seq![']'] =~= rc + (tail + seq![']']));
        lemma_piece_split(s, i, rc, tail + seq![']']);
        lemma_parse_clip_at(s, i, cs[0]);
        assert(s.subrange(i, i + rc.len() as int)[0] == rc[0]);
        assert(rc[0] == '{');
        assert(spec_skip_ws(s, i) == i);
        let k = i + rc.len();
        lemma_parse_clips_rest_at(s, k, cs.drop_first());
        assert(seq![cs[0]] + cs.drop_first() =~= cs);
    }
}

/// The text of a rendered project decomposed into its consecutive tokens.
#[verifier::rlimit(100)]
proof fn lemma_project_pieces(s: Seq<char>, i: int, p: ProjectModel)
    requires
        spec_piece_at(s, i, spec_render_project(p)),
    ensures
        ({
            let fname = spec_render_string("name"@) + seq![':'] + spec_render_string(p.name);
            let ktl = spec_render_string("timeline"@) + seq![':'];
            let kcl = spec_render_string("clips"@) + seq![':'];
            let arr = spec_render_clips(p.clips) + seq![']'];
            let fcre = spec_render_string("created_at"@) + seq![':'] + spec_render_string(
                p.created_at,
            );
            let fmod = spec_render_string("modified_at"@) + seq![':'] + spec_render_string(
                p.modified_at,
            );
            let o1 = i + 1;
            let o2 = o1 + fname.len();
            let o3 = o2 + 1;
            let o4 = o3 + ktl.len();
            let o5 = o4 + 1;
            let o6 = o5 + kcl.len();
            let o7 = o6 + 1;
            let o8 = o7 + arr.len();
            let o9 = o8 + 1;
            let o10 = o9 + 1;
            let o11 = o10 + fcre.len();
            let o12 = o11 + 1;
            let o13 = o12 + fmod.len();
            &&& spec_piece_at(s, i, seq!['{'])
            &&& spec_piece_at(s, o1, fname)
            &&& spec_piece_at(s, o2, seq![','])
            &&& spec_piece_at(s, o3, ktl)
            &&& spec_piece_at(s, o4, seq!['{'])
            &&& spec_piece_at(s, o5, kcl)
            &&& spec_piece_at(s, o6, seq!['['])
            &&& spec_piece_at(s, o7, arr)
            &&& spec_piece_at(s, o8, seq!['}'])
            &&& spec_piece_at(s, o9, seq![','])
            &&& spec_piece_at(s, o10, fcre)
            &&& spec_piece_at(s, o11, seq![','])
            &&& spec_piece_at(s, o12, fmod)
            &&& spec_piece_at(s, o13, seq!['}'])
            &&& o13 + 1 == i + spec_render_project(p).len()
        }),
{
    let fname = spec_render_string("name"@) + seq![':'] + spec_render_string(p.name);
    let ktl = spec_render_string("timeline"@) + seq![':'];
    let kcl = spec_render_string("clips"@) + seq![':'];
    let arr = spec_render_clips(p.clips) + seq![']'];
    let fcre = spec_render_string("created_at"@) + seq![':'] + spec_render_string(p.created_at);
    let fmod = spec_render_string("modified_at"@) + seq![':'] + spec_render_string(p.modified_at);
    assert(spec_render_project(p) =~= seq!['{'] + fname + seq![','] + ktl + seq!['{'] + kcl
        + seq!['['] + arr + seq!['}'] + seq![','] + fcre + seq![','] + fmod + seq!['}']);
    lemma_piece_split(s, i, seq!['{'] + fname + seq![','] + ktl + seq!['{'] + kcl + seq!['[']
        + arr + seq!['}'] + seq![','] + fcre + seq![','] + fmod, seq!['}']);
    lemma_piece_split(s, i, seq!['{'] + fname + seq![','] + ktl + seq!['{'] + kcl + seq!['[']
        + arr + seq!['}'] + seq![','] + fcre + seq![','], fmod);
    lemma_piece_split(s, i, seq!['{'] + fname + seq![','] + ktl + seq!['{'] + kcl + seq!['[']
        + arr + seq!['}'] + seq![','] + fcre, seq![',']);
    lemma_piece_split(s, i, seq!['{'] + fname + seq![','] + ktl + seq!['{'] + kcl + seq!['[']
        + arr + seq!['}'] + seq![','], fcre);
    lemma_piece_split(s, i, seq!['{'] + fname + seq![','] + ktl + seq!['{'] + kcl + seq!['[']
        + arr + seq!['}'], seq![',']);
    lemma_piece_split(s, i, seq!['{'] + fname + seq![','] + ktl + seq!['{'] + kcl + seq!['[']
        + arr, seq!['}']);
    lemma_piece_split(s, i, seq!['{'] + fname + seq![','] + ktl + seq!['{'] + kcl + seq!['['],
        arr);
    lemma_piece_split(s, i, seq!['{'] + fname + seq![','] + ktl + seq!['{'] + kcl, seq!['[']);
    lemma_piece_split(s, i, seq!['{'] + fname + seq![','] + ktl + seq!['{'], kcl);
    lemma_piece_split(s, i, seq!['{'] + fname + seq![','] + ktl, seq!['{']);
    lemma_piece_split(s, i, seq!['{'] + fname + seq![','], ktl);
    lemma_piece_split(s, i, seq!['{'] + fname, seq![',']);
    lemma_piece_split(s, i, seq!['{'], fname);
}

/// Parsing a rendered project object yields the original project.
#[verifier::rlimit(100)]
proof fn lemma_parse_project_at(s: Seq<char>, i: int, p: ProjectModel)
    requires
        spec_piece_at(s, i, spec_render_project(p)),
    ensures
        spec_parse_project(s, i) == Some((p, i + spec_render_project(p).len())),
{
    let fname = spec_render_string("name"@) + seq![':'] + spec_render_string(p.name);
    let ktl = spec_render_string("timeline"@) + seq![':'];
    let kcl = spec_render_string("clips"@) + seq![':'];
    let arr = spec_render_clips(p.clips) + seq![']'];
    let fcre = spec_render_string("created_at"@) + seq![':'] + spec_render_string(p.created_at);
    let fmod = spec_render_string("modified_at"@) + seq![':'] + spec_render_string(p.modified_at);
    lemma_project_pieces(s, i, p);
    let o1 = i + 1;
    let o2 = o1 + fname.len();
    let o3 = o2 + 1;
    let o4 = o3 + ktl.len();
    let o5 = o4 + 1;
    let o6 = o5 + kcl.len();
    let o7 = o6 + 1;
    let o8 = o7 + arr.len();
    let o9 = o8 + 1;
    let o10 = o9 + 1;
    let o11 = o10 + fcre.len();
    let o12 = o11 + 1;
    let o13 = o12 + fmod.len();
    lemma_piece_char(s, i, '{');
    assert(spec_skip_ws(s, i) == i);
    lemma_parse_string_field_at(s, o1, "name"@, p.name);
    lemma_piece_char(s, o2, ',');
    assert(spec_skip_ws(s, o2) == o2);
    lemma_parse_key_at(s, o3, "timeline"@);
    lemma_piece_char(s, o4, '{');
    assert(spec_skip_ws(s, o4) == o4);
    lemma_parse_key_at(s, o5, "clips"@);
    lemma_piece_char(s, o6, '[');
    assert(spec_skip_ws(s, o6) == o6);
    lemma_parse_clips_at(s, o7, p.clips);
    lemma_piece_char(s, o8, '}');
    assert(spec_skip_ws(s, o8) == o8);
    lemma_piece_char(s, o9, ',');
    assert(spec_skip_ws(s, o9) == o9);
    lemma_parse_string_field_at(s, o10, "created_at"@, p.created_at);
    lemma_piece_char(s, o11, ',');
    assert(spec_skip_ws(s, o11) == o11);
    lemma_parse_string_field_at(s, o12, "modified_at"@, p.modified_at);
    lemma_piece_char(s, o13, '}');
    assert(spec_skip_ws(s, o13) == o13);
    assert(spec_parse_project(s, i) == Some(
        (
            ProjectModel {
                name: p.name,
                clips: p.clips,
                created_at: p.created_at,
                modified_at: p.modified_at,
            },
            o13 + 1,
        ),
    ));
    assert(ProjectModel {
        name: p.name,
        clips: p.clips,
        created_at: p.created_at,
        modified_at: p.modified_at,
    } =~= p);
}

/// Round-trip: a document the renderer writes for any project reads back as
/// exactly that project.
pub proof fn lemma_render_parse_round_trip(p: ProjectModel)
    ensures
        spec_parse_document(spec_render_project(p)) == Some(p),
{
    let s = spec_render_project(p);
    assert(s.subrange(0, s.len() as int) =~= s);
    assert(spec_piece_at(s, 0, s));
    lemma_parse_project_at(s, 0, p);
    assert(spec_skip_ws(s, s.len() as int) == s.len());
}

} // verus!
