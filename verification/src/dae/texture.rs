//! Collada textures: resolving the image a sampler reads, the file it
//! names or the embedded image it holds, and the texture properties of a
//! material slot.
use vstd::prelude::*;

use crate::obj::material::texture_uri_string;
use crate::obj::material::texture_uri;
use crate::scene::{MaterialProperty, PropView, TextureType, props_view};
use crate::text::{chars_of, string_from_chars, sub_chars, digits_value, is_digit};
use crate::textmap::TextMap;
use crate::imaging::{ImageFormat, DecodedImage, decode_as, decode_guessed, rgba_as_format, rgba_guessed, decoded_view, rgba_image};

verus! {

/// How texture coordinates outside `[0, 1]` are mapped (the numbering of
/// the scene format).
#[derive(Clone, Copy, Debug, PartialEq, Eq, Structural)]
pub enum TextureMapMode {
    Wrap,
    Clamp,
    Mirror,
    Decal,
}

/// The code a texture mapping mode is stored under.
pub open spec fn map_mode_code(m: TextureMapMode) -> u8 {
    match m {
        TextureMapMode::Wrap => 0,
        TextureMapMode::Clamp => 1,
        TextureMapMode::Mirror => 2,
        TextureMapMode::Decal => 3,
    }
}

impl TextureMapMode {
    /// The code this mode is stored under.
    pub fn code(&self) -> (c: u8)
        ensures
            c == map_mode_code(*self),
    {
        match self {
            TextureMapMode::Wrap => 0,
            TextureMapMode::Clamp => 1,
            TextureMapMode::Mirror => 2,
            TextureMapMode::Decal => 3,
        }
    }
}

/// Texture blend operations.
pub const TEX_OP_MULTIPLY: u8 = 0;
pub const TEX_OP_ADD: u8 = 1;
pub const TEX_OP_SUBTRACT: u8 = 2;

/// `c` with ASCII lower-case letters mapped to upper case.
pub open spec fn ascii_upper(c: char) -> char {
    if 'a' <= c && c <= 'z' { ((c as u32) - 32) as char } else { c }
}

/// `c` with ASCII upper-case letters mapped to lower case.
pub open spec fn ascii_lower_char(c: char) -> char {
    if 'A' <= c && c <= 'Z' { ((c as u32) + 32) as char } else { c }
}

/// Whether two texts are equal with ASCII letter case ignored.
pub open spec fn eq_ignore_case(a: Seq<char>, b: Seq<char>) -> bool {
    a.len() == b.len() && forall|i: int| 0 <= i < a.len() ==> ascii_lower_char(#[trigger] a[i]) == ascii_lower_char(b[i])
}

fn lower_char(c: char) -> (r: char)
    ensures
        r == ascii_lower_char(c),
{
    if 'A' <= c && c <= 'Z' {
        let v = (c as u32) + 32;
        proof {
            assert(0x61 <= v <= 0x7a);
        }
        char_from_ascii(v)
    } else {
        c
    }
}

fn char_from_ascii(v: u32) -> (c: char)
    requires
        v < 128,
    ensures
        c == v as char,
{
    (v as u8) as char
}

/// Whether two strings are equal with ASCII letter case ignored.
pub fn eq_ignore_ascii_case(a: &Vec<char>, b: &Vec<char>) -> (r: bool)
    ensures
        r == eq_ignore_case(a@, b@),
{
    if a.len() != b.len() {
        return false;
    }
    let mut i: usize = 0;
    while i < a.len()
        invariant
            a.len() == b.len(),
            i <= a.len(),
            forall|k: int| 0 <= k < i ==> ascii_lower_char(#[trigger] a@[k]) == ascii_lower_char(b@[k]),
        decreases a.len() - i,
    {
        if lower_char(a[i]) != lower_char(b[i]) {
            return false;
        }
        i = i + 1;
    }
    true
}

/// The blend operation a `blend_mode` text names: `ADD`, `SUBTRACT`
/// (letter case ignored), else multiply.
pub open spec fn blend_op_spec(text: Seq<char>) -> u8 {
    if eq_ignore_case(text, "ADD"@) {
        TEX_OP_ADD
    } else if eq_ignore_case(text, "SUBTRACT"@) {
        TEX_OP_SUBTRACT
    } else {
        TEX_OP_MULTIPLY
    }
}

/// The blend operation a `blend_mode` text names.
pub fn blend_op(text: &Vec<char>) -> (op: u8)
    ensures
        op == blend_op_spec(text@),
{
    let add = vec!['A', 'D', 'D'];
    let sub = vec!['S', 'U', 'B', 'T', 'R', 'A', 'C', 'T'];
    proof {
        reveal_strlit("ADD");
        reveal_strlit("SUBTRACT");
    }
    assert(add@ =~= "ADD"@);
    assert(sub@ =~= "SUBTRACT"@);
    if eq_ignore_ascii_case(text, &add) {
        TEX_OP_ADD
    } else if eq_ignore_ascii_case(text, &sub) {
        TEX_OP_SUBTRACT
    } else {
        TEX_OP_MULTIPLY
    }
}

/// Whether an extra's text switches a flag on: `1` or `true` (letter case
/// ignored).
pub open spec fn flag_spec(text: Seq<char>) -> bool {
    text == "1"@ || eq_ignore_case(text, "true"@)
}

/// Whether an extra's text switches a flag on.
pub fn flag_value(text: &Vec<char>) -> (b: bool)
    ensures
        b == flag_spec(text@),
{
    let one = vec!['1'];
    let t = vec!['t', 'r', 'u', 'e'];
    proof {
        reveal_strlit("1");
        reveal_strlit("true");
    }
    assert(one@ =~= "1"@);
    assert(t@ =~= "true"@);
    crate::text::chars_eq(text, &one) || eq_ignore_ascii_case(text, &t)
}

/// Whether `c` is white space (the Unicode `White_Space` property).
pub open spec fn is_white_space(c: char) -> bool {
    ('\u{9}' <= c && c <= '\u{d}') || c == ' ' || c == '\u{85}' || c == '\u{a0}' || c == '\u{1680}'
        || ('\u{2000}' <= c && c <= '\u{200a}') || c == '\u{2028}' || c == '\u{2029}' || c == '\u{202f}'
        || c == '\u{205f}' || c == '\u{3000}'
}

fn white(c: char) -> (b: bool)
    ensures
        b == is_white_space(c),
{
    ('\u{9}' <= c && c <= '\u{d}') || c == ' ' || c == '\u{85}' || c == '\u{a0}' || c == '\u{1680}'
        || ('\u{2000}' <= c && c <= '\u{200a}') || c == '\u{2028}' || c == '\u{2029}' || c == '\u{202f}'
        || c == '\u{205f}' || c == '\u{3000}'
}

/// How many white-space characters `s` starts with.
pub open spec fn leading_white(s: Seq<char>) -> nat
    decreases s.len(),
{
    if s.len() > 0 && is_white_space(s[0]) { 1 + leading_white(s.skip(1)) } else { 0 }
}

/// How many white-space characters `s` ends with.
pub open spec fn trailing_white(s: Seq<char>) -> nat
    decreases s.len(),
{
    if s.len() > 0 && is_white_space(s.last()) { 1 + trailing_white(s.drop_last()) } else { 0 }
}

/// `s` without its leading and trailing white space.
pub open spec fn trim_spec(s: Seq<char>) -> Seq<char> {
    let lo = leading_white(s);
    if lo == s.len() { Seq::empty() } else { s.subrange(lo as int, s.len() - trailing_white(s)) }
}

proof fn lemma_leading(s: Seq<char>, k: int)
    requires
        0 <= k <= s.len(),
        forall|i: int| 0 <= i < k ==> is_white_space(s[i]),
    ensures
        leading_white(s) == k + leading_white(s.skip(k)),
    decreases k,
{
    if k > 0 {
        assert(s.skip(1).skip(k - 1) =~= s.skip(k));
        assert(is_white_space(s[0]));
        lemma_leading(s.skip(1), k - 1);
    } else {
        assert(s.skip(0) =~= s);
    }
}

proof fn lemma_trailing(s: Seq<char>, k: int)
    requires
        0 <= k <= s.len(),
        forall|i: int| s.len() - k <= i < s.len() ==> is_white_space(s[i]),
    ensures
        trailing_white(s) == k + trailing_white(s.take(s.len() - k)),
    decreases k,
{
    if k > 0 {
        assert(s.drop_last().take(s.drop_last().len() - (k - 1)) =~= s.take(s.len() - k));
        assert(is_white_space(s.last()));
        lemma_trailing(s.drop_last(), k - 1);
    } else {
        assert(s.take(s.len() as int) =~= s);
    }
}

/// `s` without its leading and trailing white space (`str::trim`).
pub fn trim(s: &Vec<char>) -> (r: Vec<char>)
    ensures
        r@ == trim_spec(s@),
{
    let mut lo: usize = 0;
    while lo < s.len() && white(s[lo])
        invariant
            lo <= s.len(),
            forall|i: int| 0 <= i < lo ==> is_white_space(s@[i]),
        decreases s.len() - lo,
    {
        lo = lo + 1;
    }
    proof {
        lemma_leading(s@, lo as int);
        assert(s@.skip(lo as int).len() == 0 || !is_white_space(s@.skip(lo as int)[0]));
    }
    if lo == s.len() {
        return Vec::new();
    }
    let mut hi: usize = s.len();
    while hi > lo && white(s[hi - 1])
        invariant
            lo < s.len(),
            !is_white_space(s@[lo as int]),
            lo <= hi <= s.len(),
            forall|i: int| hi <= i < s.len() ==> is_white_space(s@[i]),
        decreases hi,
    {
        hi = hi - 1;
    }
    proof {
        lemma_trailing(s@, s.len() - hi);
        assert(s@.take(hi as int).len() == 0 || !is_white_space(s@.take(hi as int).last()));
    }
    sub_chars(s, lo, hi)
}

/// `s` without a leading `file://` or `FILE://`.
pub open spec fn strip_file_scheme(s: Seq<char>) -> Seq<char> {
    if s.len() >= 7 && (s.take(7) == "file://"@ || s.take(7) == "FILE://"@) { s.skip(7) } else { s }
}

/// The value of an ASCII hexadecimal digit.
pub open spec fn hex_value(b: u8) -> Option<u8> {
    if 48 <= b <= 57 {
        Some((b - 48) as u8)
    } else if 65 <= b <= 70 {
        Some((b - 55) as u8)
    } else if 97 <= b <= 102 {
        Some((b - 87) as u8)
    } else {
        None
    }
}

/// Bytes with every `%` followed by two hexadecimal digits replaced by the
/// byte they spell; any other byte, a lone `%` among them, is kept.
pub open spec fn percent_decoded(b: Seq<u8>) -> Seq<u8>
    decreases b.len(),
{
    if b.len() == 0 {
        Seq::empty()
    } else if b[0] == 37 && b.len() >= 3 && hex_value(b[1]) is Some && hex_value(b[2]) is Some {
        seq![(hex_value(b[1])->0 * 16 + hex_value(b[2])->0) as u8] + percent_decoded(b.skip(3))
    } else {
        seq![b[0]] + percent_decoded(b.skip(1))
    }
}

/// What `urlencoding::decode` gives for a text: its UTF-8 bytes
/// percent-decoded, read back as UTF-8; none when they are not UTF-8.
pub open spec fn url_decoded(s: Seq<char>) -> Option<Seq<char>> {
    let b = percent_decoded(vstd::utf8::encode_utf8(s));
    if vstd::utf8::valid_utf8(b) { Some(vstd::utf8::decode_utf8(b)) } else { None }
}

/// Percent-decodes a text (`urlencoding::decode`): the source decodes each
/// `%` with two hexadecimal digits after it into that byte, keeps every
/// other byte, and checks the result is UTF-8 (see `url_decoded`); a text
/// without `%` comes back unchanged.
#[verifier::external_body]
pub(crate) fn url_decode(s: &str) -> (r: Option<String>)
    ensures
        match r {
            Some(d) => url_decoded(s@) == Some(d@),
            None => url_decoded(s@) is None,
        },
        !s@.contains('%') ==> r is Some && r->0@ == s@,
{
    urlencoding::decode(s).ok().map(|d| d.into_owned())
}

/// The file an `init_from` reference names: trimmed, without a `file://`
/// scheme, percent-decoded (left as it is when decoding fails); none when
/// nothing is left.
pub open spec fn image_file_spec(raw: Seq<char>) -> Option<Seq<char>> {
    let stripped = strip_file_scheme(trim_spec(raw));
    let decoded = match url_decoded(stripped) { Some(d) => d, None => stripped };
    if decoded.len() == 0 { None } else { Some(decoded) }
}

/// The file an `init_from` reference names.
pub fn image_file(raw: &str) -> (r: Option<String>)
    ensures
        match r {
            Some(f) => image_file_spec(raw@) == Some(f@),
            None => image_file_spec(raw@) is None,
        },
{
    let chars = chars_of(raw);
    let t = trim(&chars);
    let lower = vec!['f', 'i', 'l', 'e', ':', '/', '/'];
    let upper = vec!['F', 'I', 'L', 'E', ':', '/', '/'];
    proof {
        reveal_strlit("file://");
        reveal_strlit("FILE://");
    }
    assert(lower@ =~= "file://"@);
    assert(upper@ =~= "FILE://"@);
    let stripped = if t.len() >= 7 {
        let head = sub_chars(&t, 0, 7);
        assert(head@ =~= t@.take(7));
        if crate::text::chars_eq(&head, &lower) || crate::text::chars_eq(&head, &upper) {
            let rest = sub_chars(&t, 7, t.len());
            assert(rest@ =~= t@.skip(7));
            rest
        } else {
            t
        }
    } else {
        t
    };
    let s = string_from_chars(&stripped);
    let decoded = match url_decode(s.as_str()) {
        Some(d) => d,
        None => s,
    };
    if crate::text::string_is_empty(&decoded) {
        None
    } else {
        Some(decoded)
    }
}

/// `s` from its first decimal digit on (empty when it has none).
pub open spec fn skip_non_digits(s: Seq<char>) -> Seq<char>
    decreases s.len(),
{
    if s.len() == 0 || is_digit(s[0]) { s } else { skip_non_digits(s.skip(1)) }
}

/// The decimal digits `s` starts with.
pub open spec fn take_digits(s: Seq<char>) -> Seq<char>
    decreases s.len(),
{
    if s.len() > 0 && is_digit(s[0]) { seq![s[0]] + take_digits(s.skip(1)) } else { Seq::empty() }
}

/// The first run of decimal digits in `s`.
pub open spec fn digit_run(s: Seq<char>) -> Seq<char> {
    take_digits(skip_non_digits(s))
}

proof fn lemma_skip_non_digits(s: Seq<char>, k: int)
    requires
        0 <= k <= s.len(),
        forall|i: int| 0 <= i < k ==> !is_digit(s[i]),
    ensures
        skip_non_digits(s) == skip_non_digits(s.skip(k)),
    decreases k,
{
    if k > 0 {
        assert(s.skip(1).skip(k - 1) =~= s.skip(k));
        lemma_skip_non_digits(s.skip(1), k - 1);
    } else {
        assert(s.skip(0) =~= s);
    }
}

proof fn lemma_take_digits(s: Seq<char>, k: int)
    requires
        0 <= k <= s.len(),
        forall|i: int| 0 <= i < k ==> is_digit(s[i]),
    ensures
        take_digits(s) == s.take(k) + take_digits(s.skip(k)),
    decreases k,
{
    if k > 0 {
        assert(s.skip(1).skip(k - 1) =~= s.skip(k));
        lemma_take_digits(s.skip(1), k - 1);
        assert(seq![s[0]] + s.skip(1).take(k - 1) =~= s.take(k));
        assert(seq![s[0]] + (s.skip(1).take(k - 1) + take_digits(s.skip(k))) =~= s.take(k) + take_digits(s.skip(k)));
    } else {
        assert(s.skip(0) =~= s);
        assert(s.take(0) + take_digits(s) =~= take_digits(s));
    }
}

/// The first run of decimal digits in `s`.
pub fn first_digit_run(s: &Vec<char>) -> (r: Vec<char>)
    ensures
        r@ == digit_run(s@),
{
    let mut i: usize = 0;
    while i < s.len() && !('0' <= s[i] && s[i] <= '9')
        invariant
            i <= s.len(),
            forall|k: int| 0 <= k < i ==> !is_digit(s@[k]),
        decreases s.len() - i,
    {
        i = i + 1;
    }
    proof {
        lemma_skip_non_digits(s@, i as int);
    }
    let mut j: usize = i;
    while j < s.len() && '0' <= s[j] && s[j] <= '9'
        invariant
            i <= j <= s.len(),
            forall|k: int| i <= k < j ==> is_digit(s@[k]),
        decreases s.len() - j,
    {
        j = j + 1;
    }
    proof {
        let t = s@.skip(i as int);
        assert(skip_non_digits(s@) == skip_non_digits(t));
        assert(t.len() == 0 || is_digit(t[0]));
        lemma_take_digits(t, j - i);
        assert(t.skip(j - i).len() == 0 || !is_digit(t.skip(j - i)[0]));
        assert(t.take(j - i) =~= s@.subrange(i as int, j as int));
        assert(take_digits(t.skip(j - i)) =~= Seq::<char>::empty());
        assert(t.take(j - i) + Seq::<char>::empty() =~= t.take(j - i));
    }
    sub_chars(s, i, j)
}

/// The texture-coordinate set a sampler names when no set was bound to
/// its channel: the first run of digits in the channel name, or 0 when
/// there is none or its value does not fit an `i32`.
pub open spec fn uv_source_spec(uv_id: Option<u32>, uv_channel: Seq<char>) -> i32 {
    match uv_id {
        Some(id) => id as i32,
        None => {
            let run = digit_run(uv_channel);
            if run.len() > 0 && digits_value(run) <= i32::MAX { digits_value(run) as i32 } else { 0 }
        },
    }
}

proof fn lemma_run_all_digits(s: Seq<char>)
    ensures
        crate::text::all_digits(take_digits(s)),
    decreases s.len(),
{
    if s.len() > 0 && is_digit(s[0]) {
        lemma_run_all_digits(s.skip(1));
        let r = take_digits(s);
        assert forall|i: int| 0 <= i < r.len() implies is_digit(#[trigger] r[i]) by {
            if i > 0 {
                assert(r[i] == take_digits(s.skip(1))[i - 1]);
            }
        }
    }
}

/// The texture-coordinate set of a sampler.
pub fn uv_source(uv_id: Option<u32>, uv_channel: &String) -> (r: i32)
    ensures
        r == uv_source_spec(uv_id, uv_channel@),
{
    match uv_id {
        Some(id) => id as i32,
        None => {
            let chars = chars_of(uv_channel.as_str());
            let run = first_digit_run(&chars);
            proof {
                lemma_run_all_digits(skip_non_digits(chars@));
                if run@.len() > 0 {
                    assert(run@[0] != '+');
                    assert(run@ =~= (if run@.len() > 0 && run@[0] == '+' { run@.drop_first() } else { run@ }));
                }
            }
            match crate::text::parse_usize(&run) {
                Some(n) => if n <= 0x7fff_ffff { n as i32 } else { 0 },
                None => 0,
            }
        },
    }
}

/// The little-endian bytes of an `i32`.
pub open spec fn le_bytes_i32(v: i32) -> Seq<u8> {
    let u = v as u32;
    seq![(u % 256) as u8, ((u / 256) % 256) as u8, ((u / 65536) % 256) as u8, (u / 16777216) as u8]
}

fn i32_le_bytes(v: i32) -> (b: Vec<u8>)
    ensures
        b@ == le_bytes_i32(v),
{
    let u = v as u32;
    let mut b: Vec<u8> = Vec::new();
    b.push((u % 256) as u8);
    b.push(((u / 256) % 256) as u8);
    b.push(((u / 65536) % 256) as u8);
    b.push((u / 16777216) as u8);
    assert(b@ =~= le_bytes_i32(v));
    b
}

/// What a `newparam` of an effect holds, as far as image resolution goes.
pub enum ParamTarget {
    /// A `sampler2D` reading the named surface.
    Sampler(String),
    /// A `surface` initialised from the named image (none for other
    /// initialisations).
    Surface(Option<String>),
    /// Any other parameter.
    Other,
}

/// The name a parameter leads on to, if any.
pub open spec fn param_next(p: ParamTarget) -> Option<Seq<char>> {
    match p {
        ParamTarget::Sampler(s) => Some(s@),
        ParamTarget::Surface(Some(i)) => Some(i@),
        _ => None,
    }
}

/// Follows sampler and surface parameters from `cur`, stopping at a name
/// seen before, a name that is no parameter, or a parameter that leads
/// nowhere (with `fuel` steps at most).
pub open spec fn resolve_spec(params: Map<Seq<char>, ParamTarget>, cur: Seq<char>, visited: Seq<Seq<char>>, fuel: nat) -> Seq<char>
    decreases fuel,
{
    if fuel == 0 || visited.contains(cur) || !params.dom().contains(cur) {
        cur
    } else {
        match param_next(params[cur]) {
            Some(next) => resolve_spec(params, next, visited.push(cur), (fuel - 1) as nat),
            None => cur,
        }
    }
}

/// The image name a sampler name resolves to (the chain of parameters is
/// followed until it ends or comes back to a name seen before).
pub open spec fn resolved_name(params: TextMap<ParamTarget>, name: Seq<char>) -> Seq<char> {
    resolve_spec(params.as_map(), name, Seq::empty(), params.keys().len() + 2)
}

proof fn lemma_distinct_within(a: Seq<Seq<char>>, keys: Seq<Seq<char>>)
    requires
        a.no_duplicates(),
        keys.no_duplicates(),
        forall|i: int| 0 <= i < a.len() ==> keys.contains(#[trigger] a[i]),
    ensures
        a.len() <= keys.len(),
{
    a.unique_seq_to_set();
    keys.unique_seq_to_set();
    assert(a.to_set().subset_of(keys.to_set())) by {
        assert forall|x: Seq<char>| a.to_set().contains(x) implies keys.to_set().contains(x) by {
            let i = choose|i: int| 0 <= i < a.len() && a[i] == x;
            assert(keys.contains(a[i]));
        }
    }
    vstd::set_lib::lemma_len_subset(a.to_set(), keys.to_set());
}

/// The image name a sampler name resolves to.
pub fn resolve_image_name(params: &TextMap<ParamTarget>, name: &String) -> (r: String)
    requires
        params.wf(),
    ensures
        r@ == resolved_name(*params, name@),
{
    let ghost keys = params.keys();
    let ghost n: nat = keys.len() + 2;
    let mut visited: Vec<String> = Vec::new();
    let mut current = name.clone();
    proof {
        params.lemma_keys_distinct();
        assert(crate::obj::material::texts(visited@) =~= Seq::<Seq<char>>::empty());
    }
    loop
        invariant
            params.wf(),
            keys == params.keys(),
            keys.no_duplicates(),
            n == keys.len() + 2,
            crate::obj::material::texts(visited@).no_duplicates(),
            visited@.len() < n,
            forall|i: int| 0 <= i < visited@.len() ==> keys.contains(#[trigger] visited@[i]@),
            resolve_spec(params.as_map(), current@, crate::obj::material::texts(visited@), (n - visited@.len()) as nat)
                == resolved_name(*params, name@),
        decreases n - visited@.len(),
    {
        let ghost vt = crate::obj::material::texts(visited@);
        let ghost fuel = (n - visited@.len()) as nat;
        if contains_text(&visited, &current) {
            return current;
        }
        let next = match params.get(current.as_str()) {
            None => {
                return current;
            },
            Some(p) => match p {
                ParamTarget::Sampler(s) => s.clone(),
                ParamTarget::Surface(Some(i)) => i.clone(),
                _ => {
                    return current;
                },
            },
        };
        proof {
            params.lemma_dom_is_keys(current@);
        }
        visited.push(current);
        proof {
            assert(crate::obj::material::texts(visited@) =~= vt.push(visited@.last()@));
            let nv = crate::obj::material::texts(visited@);
            assert forall|i: int, j: int| 0 <= i < nv.len() && 0 <= j < nv.len() && i != j implies nv[i] != nv[j] by {
                if i < vt.len() && j < vt.len() {
                    assert(vt.no_duplicates());
                } else if i == vt.len() {
                    assert(!vt.contains(nv[i]));
                    assert(nv[j] == vt[j]);
                } else {
                    assert(!vt.contains(nv[j]));
                    assert(nv[i] == vt[i]);
                }
            }
            assert(nv.no_duplicates());
            assert forall|i: int| 0 <= i < nv.len() implies keys.contains(#[trigger] nv[i]) by {
                assert(nv[i] == visited@[i]@);
            }
            lemma_distinct_within(nv, keys);
        }
        current = next;
    }
}

/// Whether `v` holds a string equal to `s`.
fn contains_text(v: &Vec<String>, s: &String) -> (b: bool)
    ensures
        b == crate::obj::material::texts(v@).contains(s@),
{
    let mut i: usize = 0;
    while i < v.len()
        invariant
            i <= v.len(),
            forall|k: int| 0 <= k < i ==> v@[k]@ != s@,
        decreases v.len() - i,
    {
        if v[i] == *s {
            assert(crate::obj::material::texts(v@)[i as int] == s@);
            return true;
        }
        i = i + 1;
    }
    false
}

/// Where the data of an `<image>` comes from.
pub enum ImageSourceInfo {
    /// An `init_from` reference (the text of its URL).
    InitFrom(String),
    /// Embedded encoded data.
    Data(Vec<u8>),
}

/// An `<image>` of a Collada document.
pub struct ImageInfo {
    pub id: Option<String>,
    pub name: Option<String>,
    pub format: Option<String>,
    pub source: ImageSourceInfo,
}

/// Whether an image has the id `name`.
pub open spec fn has_id(img: ImageInfo, name: Seq<char>) -> bool {
    img.id is Some && img.id->0@ == name
}

/// The image a resolved name selects: the document's image of that id,
/// else the first image of the effect (its own, its profile's, then its
/// technique's) with that id.
pub open spec fn find_image_spec(doc: Map<Seq<char>, ImageInfo>, local: Seq<ImageInfo>, name: Seq<char>) -> Option<ImageInfo> {
    if doc.dom().contains(name) {
        Some(doc[name])
    } else if exists|i: int| 0 <= i < local.len() && has_id(#[trigger] local[i], name) {
        Some(local[choose|i: int| 0 <= i < local.len() && has_id(#[trigger] local[i], name)
            && forall|j: int| 0 <= j < i ==> !has_id(local[j], name)])
    } else {
        None
    }
}

/// The image a resolved name selects.
pub fn find_image<'a>(doc: &'a TextMap<ImageInfo>, local: &'a Vec<ImageInfo>, name: &String) -> (r: Option<&'a ImageInfo>)
    requires
        doc.wf(),
    ensures
        match find_image_spec(doc.as_map(), local@, name@) {
            Some(img) => r == Some(&img),
            None => r is None,
        },
{
    match doc.get(name.as_str()) {
        Some(img) => Some(img),
        None => {
            let mut i: usize = 0;
            while i < local.len()
                invariant
                    i <= local.len(),
                    !doc.as_map().dom().contains(name@),
                    forall|j: int| 0 <= j < i ==> !has_id(local@[j], name@),
                decreases local.len() - i,
            {
                let hit = match &local[i].id {
                    Some(id) => *id == *name,
                    None => false,
                };
                if hit {
                    proof {
                        assert(has_id(local@[i as int], name@));
                        let c = choose|c: int| 0 <= c < local@.len() && has_id(#[trigger] local@[c], name@)
                            && forall|j: int| 0 <= j < c ==> !has_id(local@[j], name@);
                        assert(c == i);
                    }
                    return Some(&local[i]);
                }
                i = i + 1;
            }
            None
        },
    }
}

/// The format an image's `format` hint names: `png`, `jpg` or `jpeg`,
/// `bmp`, `gif`, `webp` (letter case ignored); none for any other.
pub open spec fn format_hint_spec(format: Option<Seq<char>>) -> Option<ImageFormat> {
    match format {
        Some(f) => if eq_ignore_case(f, "png"@) {
            Some(ImageFormat::Png)
        } else if eq_ignore_case(f, "jpg"@) || eq_ignore_case(f, "jpeg"@) {
            Some(ImageFormat::Jpeg)
        } else if eq_ignore_case(f, "bmp"@) {
            Some(ImageFormat::Bmp)
        } else if eq_ignore_case(f, "gif"@) {
            Some(ImageFormat::Gif)
        } else if eq_ignore_case(f, "webp"@) {
            Some(ImageFormat::WebP)
        } else {
            None
        },
        None => None,
    }
}

fn lit(s: &str) -> (v: Vec<char>)
    ensures
        v@ == s@,
{
    chars_of(s)
}

/// The format an image's `format` hint names.
pub fn format_hint(format: &Option<String>) -> (r: Option<ImageFormat>)
    ensures
        r == format_hint_spec(match format { Some(f) => Some(f@), None => None }),
{
    match format {
        None => None,
        Some(f) => {
            let c = chars_of(f.as_str());
            if eq_ignore_ascii_case(&c, &lit("png")) {
                Some(ImageFormat::Png)
            } else if eq_ignore_ascii_case(&c, &lit("jpg")) || eq_ignore_ascii_case(&c, &lit("jpeg")) {
                Some(ImageFormat::Jpeg)
            } else if eq_ignore_ascii_case(&c, &lit("bmp")) {
                Some(ImageFormat::Bmp)
            } else if eq_ignore_ascii_case(&c, &lit("gif")) {
                Some(ImageFormat::Gif)
            } else if eq_ignore_ascii_case(&c, &lit("webp")) {
                Some(ImageFormat::WebP)
            } else {
                None
            }
        },
    }
}

/// What decoding embedded data gives: read as the hinted format, falling
/// back to guessing it from the data; guessed alone when there is no hint.
pub open spec fn embedded_decode_spec(data: Seq<u8>, hint: Option<ImageFormat>) -> Option<(u32, u32, Seq<u8>)> {
    match hint {
        Some(f) => match rgba_as_format(data, f) {
            Some(x) => Some(x),
            None => rgba_guessed(data),
        },
        None => rgba_guessed(data),
    }
}

fn decode_embedded(data: &Vec<u8>, hint: Option<ImageFormat>) -> (r: Option<DecodedImage>)
    ensures
        match r {
            Some(d) => embedded_decode_spec(data@, hint) == Some(decoded_view(d)),
            None => embedded_decode_spec(data@, hint) is None,
        },
{
    match hint {
        Some(f) => match decode_as(data.as_slice(), f) {
            Ok(d) => Some(rgba_image(d)),
            Err(_) => decode_guessed(data.as_slice()).ok(),
        },
        None => decode_guessed(data.as_slice()).ok(),
    }
}

/// An image embedded in a Collada document, decoded.
pub struct EmbeddedTexture {
    pub filename: String,
    pub width: u32,
    pub height: u32,
    pub format: Option<ImageFormat>,
    pub rgba: Vec<u8>,
}

/// The embedded images decoded so far, each under the key it was first
/// named by; materials refer to image `i` as `*i`.
pub struct EmbeddedImages {
    pub ids: TextMap<usize>,
    pub textures: Vec<EmbeddedTexture>,
}

/// Why a texture's file could not be named.
#[derive(Debug)]
pub enum TextureFileError {
    /// The image (by id, or by the name it was resolved from) names no file.
    NoFileReference(String),
    /// The image's embedded data is no image the decoders read.
    InvalidEmbeddedImage(String),
}

/// A texture file error, as a value.
pub enum TextureFileErrorView {
    NoFileReference(Seq<char>),
    InvalidEmbeddedImage(Seq<char>),
}

impl View for TextureFileError {
    type V = TextureFileErrorView;

    open spec fn view(&self) -> TextureFileErrorView {
        match self {
            TextureFileError::NoFileReference(s) => TextureFileErrorView::NoFileReference(s@),
            TextureFileError::InvalidEmbeddedImage(s) => TextureFileErrorView::InvalidEmbeddedImage(s@),
        }
    }
}

/// How an error names an image: by its id, else by the resolved name.
pub open spec fn image_label(img: ImageInfo, current: Seq<char>) -> Seq<char> {
    match img.id { Some(i) => i@, None => current }
}

/// The key an embedded image is registered under: its id, else its name,
/// else the resolved name.
pub open spec fn embedded_key(img: ImageInfo, current: Seq<char>) -> Seq<char> {
    match img.id { Some(i) => i@, None => match img.name { Some(n) => n@, None => current } }
}

/// The file name of a decoded embedded image: its name, else its id, else
/// its key.
pub open spec fn embedded_filename(img: ImageInfo, key: Seq<char>) -> Seq<char> {
    match img.name { Some(n) => n@, None => match img.id { Some(i) => i@, None => key } }
}

fn opt_or(a: &Option<String>, b: &Option<String>, c: &String) -> (r: String)
    ensures
        r@ == (match *a { Some(x) => x@, None => match *b { Some(y) => y@, None => c@ } }),
{
    match a {
        Some(x) => x.clone(),
        None => match b {
            Some(y) => y.clone(),
            None => c.clone(),
        },
    }
}

fn append_jpg(s: &String) -> (r: String)
    ensures
        r@ == s@ + ".jpg"@,
{
    let mut v = chars_of(s.as_str());
    let ext = lit(".jpg");
    let mut i: usize = 0;
    let ghost v0 = v@;
    while i < ext.len()
        invariant
            i <= ext.len(),
            v@ == v0 + ext@.take(i as int),
        decreases ext.len() - i,
    {
        v.push(ext[i]);
        assert(ext@.take(i + 1) =~= ext@.take(i as int).push(ext@[i as int]));
        i = i + 1;
    }
    assert(ext@.take(ext.len() as int) =~= ext@);
    string_from_chars(&v)
}

/// The file a sampler's texture reads, as a material names it: the
/// sampler name is resolved through the effect's parameters to an image;
/// an unknown image is taken to be `<name>.jpg`; an `init_from` image
/// names its file; an embedded image is decoded once and named `*<i>`.
pub fn find_filename_for_effect_texture(
    params: &TextMap<ParamTarget>,
    doc_images: &TextMap<ImageInfo>,
    local_images: &Vec<ImageInfo>,
    name: &String,
    embedded: &mut EmbeddedImages,
) -> (r: Result<String, TextureFileError>)
    requires
        params.wf(),
        doc_images.wf(),
        old(embedded).ids.wf(),
    ensures
        final(embedded).ids.wf(),
        ({
            let current = resolved_name(*params, name@);
            let ids0 = old(embedded).ids.as_map();
            let n0 = old(embedded).textures@.len();
            match find_image_spec(doc_images.as_map(), local_images@, current) {
                None => r is Ok && r->Ok_0@ == current + ".jpg"@
                    && final(embedded).ids.as_map() == ids0 && final(embedded).textures@ == old(embedded).textures@,
                Some(img) => match img.source {
                    ImageSourceInfo::InitFrom(raw) => final(embedded).ids.as_map() == ids0
                        && final(embedded).textures@ == old(embedded).textures@
                        && match image_file_spec(raw@) {
                            Some(f) => r is Ok && r->Ok_0@ == f,
                            None => r is Err && r->Err_0@ == TextureFileErrorView::NoFileReference(image_label(img, current)),
                        },
                    ImageSourceInfo::Data(data) => {
                        let key = embedded_key(img, current);
                        if ids0.dom().contains(key) {
                            r is Ok && r->Ok_0@ == texture_uri(ids0[key] as nat)
                                && final(embedded).ids.as_map() == ids0 && final(embedded).textures@ == old(embedded).textures@
                        } else {
                            &&& final(embedded).ids.as_map() == ids0.insert(key, n0 as usize)
                            &&& match embedded_decode_spec(data@, format_hint_spec(match img.format { Some(f) => Some(f@), None => None })) {
                                None => r is Err && r->Err_0@ == TextureFileErrorView::InvalidEmbeddedImage(image_label(img, current))
                                    && final(embedded).textures@ == old(embedded).textures@,
                                Some((w, h, rgba)) => r is Ok && r->Ok_0@ == texture_uri(n0)
                                    && final(embedded).textures@.len() == n0 + 1
                                    && final(embedded).textures@.take(n0 as int) == old(embedded).textures@
                                    && final(embedded).textures@[n0 as int].filename@ == embedded_filename(img, key)
                                    && final(embedded).textures@[n0 as int].width == w
                                    && final(embedded).textures@[n0 as int].height == h
                                    && final(embedded).textures@[n0 as int].rgba@ == rgba
                                    && final(embedded).textures@[n0 as int].format
                                        == format_hint_spec(match img.format { Some(f) => Some(f@), None => None }),
                            }
                        }
                    },
                },
            }
        }),
{
    let current = resolve_image_name(params, name);
    let image = match find_image(doc_images, local_images, &current) {
        None => return Ok(append_jpg(&current)),
        Some(img) => img,
    };
    match &image.source {
        ImageSourceInfo::InitFrom(raw) => match image_file(raw.as_str()) {
            Some(f) => Ok(f),
            None => {
                let label = opt_or(&image.id, &None, &current);
                Err(TextureFileError::NoFileReference(label))
            },
        },
        ImageSourceInfo::Data(data) => {
            let key = opt_or(&image.id, &image.name, &current);
            match embedded.ids.get(key.as_str()) {
                Some(index) => return Ok(texture_uri_string(*index)),
                None => {},
            }
            let index = embedded.textures.len();
            embedded.ids.insert(key.clone(), index);
            let hint = format_hint(&image.format);
            match decode_embedded(data, hint) {
                None => {
                    let label = opt_or(&image.id, &None, &current);
                    Err(TextureFileError::InvalidEmbeddedImage(label))
                },
                Some(d) => {
                    let filename = opt_or(&image.name, &image.id, &key);
                    embedded.textures.push(EmbeddedTexture {
                        filename,
                        width: d.width,
                        height: d.height,
                        format: hint,
                        rgba: d.rgba,
                    });
                    Ok(texture_uri_string(index))
                },
            }
        },
    }
}

/// A texture sampler of an effect. The UV transform and the blend weight
/// come already encoded as the bytes the scene stores.
pub struct EffectSampler {
    pub name: String,
    pub uv_channel: String,
    pub uv_id: Option<u32>,
    pub wrap_u: TextureMapMode,
    pub wrap_v: TextureMapMode,
    pub transform: Vec<u8>,
    pub op: u8,
    pub weighting: Vec<u8>,
}

/// A property of texture slot `index`.
pub open spec fn slot_view(key: Seq<char>, semantic: TextureType, index: u32, value: crate::scene::ValueView) -> PropView {
    PropView { key, semantic, index, value }
}

/// The properties a sampler's texture adds to a material, in order: the
/// file, the U and V mapping modes, the UV transform, the blend operation,
/// the blend weight and the UV source set.
pub open spec fn texture_props_spec(s: EffectSampler, ty: TextureType, index: u32, filename: Seq<char>) -> Seq<PropView> {
    seq![
        slot_view("$tex.file"@, ty, index, crate::scene::ValueView::Text(filename)),
        slot_view("$tex.mapmodeu"@, ty, index, crate::scene::ValueView::Bytes(seq![map_mode_code(s.wrap_u)])),
        slot_view("$tex.mapmodev"@, ty, index, crate::scene::ValueView::Bytes(seq![map_mode_code(s.wrap_v)])),
        slot_view("$tex.uvtrafo"@, ty, index, crate::scene::ValueView::Bytes(s.transform@)),
        slot_view("$tex.op"@, ty, index, crate::scene::ValueView::Bytes(seq![s.op])),
        slot_view("$tex.blend"@, ty, index, crate::scene::ValueView::Bytes(s.weighting@)),
        slot_view("$tex.uvwsrc"@, ty, index, crate::scene::ValueView::Bytes(le_bytes_i32(uv_source_spec(s.uv_id, s.uv_channel@)))),
    ]
}

fn slot_prop(key: &str, ty: TextureType, index: u32, bytes: Vec<u8>) -> (p: MaterialProperty)
    ensures
        p@ == slot_view(key@, ty, index, crate::scene::ValueView::Bytes(bytes@)),
{
    MaterialProperty { key: String::from_str(key), semantic: ty, index, value: crate::scene::PropertyValue::Bytes(bytes) }
}

fn one_byte(b: u8) -> (v: Vec<u8>)
    ensures
        v@ == seq![b],
{
    let mut v: Vec<u8> = Vec::new();
    v.push(b);
    assert(v@ =~= seq![b]);
    v
}

/// Adds the properties of a sampler's texture to a material.
pub fn add_texture(props: &mut Vec<MaterialProperty>, sampler: &EffectSampler, texture_type: TextureType, index: u32, filename: &String)
    ensures
        props_view(final(props)@) == props_view(old(props)@) + texture_props_spec(*sampler, texture_type, index, filename@),
{
    let ghost before = props_view(props@);
    props.push(MaterialProperty {
        key: String::from_str("$tex.file"),
        semantic: texture_type,
        index,
        value: crate::scene::PropertyValue::Text(filename.clone()),
    });
    props.push(slot_prop("$tex.mapmodeu", texture_type, index, one_byte(sampler.wrap_u.code())));
    props.push(slot_prop("$tex.mapmodev", texture_type, index, one_byte(sampler.wrap_v.code())));
    props.push(slot_prop("$tex.uvtrafo", texture_type, index, sampler.transform.clone()));
    props.push(slot_prop("$tex.op", texture_type, index, one_byte(sampler.op)));
    props.push(slot_prop("$tex.blend", texture_type, index, sampler.weighting.clone()));
    let uv = uv_source(sampler.uv_id, &sampler.uv_channel);
    props.push(slot_prop("$tex.uvwsrc", texture_type, index, i32_le_bytes(uv)));
    assert(props_view(props@) =~= before + texture_props_spec(*sampler, texture_type, index, filename@));
}

/// How an extra of a texture changes its sampler, for the extras that
/// hold no number: `wrapU`/`wrapV` set wrapping or clamping, `mirrorU`/
/// `mirrorV` set mirroring when on, `blend_mode` sets the operation (the
/// extra's name is compared in lower case).
pub open spec fn extra_flag_spec(s: EffectSampler, name: Seq<char>, text: Seq<char>) -> (TextureMapMode, TextureMapMode, u8) {
    let lname = Seq::new(name.len(), |i: int| ascii_lower_char(name[i]));
    let flag = flag_spec(text);
    if lname == "wrapu"@ {
        (if flag { TextureMapMode::Wrap } else { TextureMapMode::Clamp }, s.wrap_v, s.op)
    } else if lname == "wrapv"@ {
        (s.wrap_u, if flag { TextureMapMode::Wrap } else { TextureMapMode::Clamp }, s.op)
    } else if lname == "mirroru"@ {
        (if flag { TextureMapMode::Mirror } else { s.wrap_u }, s.wrap_v, s.op)
    } else if lname == "mirrorv"@ {
        (s.wrap_u, if flag { TextureMapMode::Mirror } else { s.wrap_v }, s.op)
    } else if lname == "blend_mode"@ {
        (s.wrap_u, s.wrap_v, blend_op_spec(text))
    } else {
        (s.wrap_u, s.wrap_v, s.op)
    }
}

fn lower_all(v: &Vec<char>) -> (r: Vec<char>)
    ensures
        r@ == Seq::new(v@.len(), |i: int| ascii_lower_char(v@[i])),
{
    let mut r: Vec<char> = Vec::new();
    let mut i: usize = 0;
    while i < v.len()
        invariant
            i <= v.len(),
            r@.len() == i,
            forall|k: int| 0 <= k < i ==> #[trigger] r@[k] == ascii_lower_char(v@[k]),
        decreases v.len() - i,
    {
        r.push(lower_char(v[i]));
        i = i + 1;
    }
    assert(r@ =~= Seq::new(v@.len(), |i: int| ascii_lower_char(v@[i])));
    r
}

/// Applies one extra (by name and trimmed text) of a texture to its
/// sampler, for the extras that hold no number.
pub fn apply_texture_extra_flag(s: &mut EffectSampler, name: &Vec<char>, text: &Vec<char>)
    ensures
        (final(s).wrap_u, final(s).wrap_v, final(s).op) == extra_flag_spec(*old(s), name@, text@),
        final(s).name == old(s).name,
        final(s).uv_channel == old(s).uv_channel,
        final(s).uv_id == old(s).uv_id,
        final(s).transform == old(s).transform,
        final(s).weighting == old(s).weighting,
{
    let lname = lower_all(name);
    let flag = flag_value(text);
    if crate::text::chars_eq(&lname, &lit("wrapu")) {
        s.wrap_u = if flag { TextureMapMode::Wrap } else { TextureMapMode::Clamp };
    } else if crate::text::chars_eq(&lname, &lit("wrapv")) {
        s.wrap_v = if flag { TextureMapMode::Wrap } else { TextureMapMode::Clamp };
    } else if crate::text::chars_eq(&lname, &lit("mirroru")) {
        if flag {
            s.wrap_u = TextureMapMode::Mirror;
        }
    } else if crate::text::chars_eq(&lname, &lit("mirrorv")) {
        if flag {
            s.wrap_v = TextureMapMode::Mirror;
        }
    } else if crate::text::chars_eq(&lname, &lit("blend_mode")) {
        s.op = blend_op(text);
    }
}

} // verus!
