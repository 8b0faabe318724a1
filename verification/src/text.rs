//! Character-level helpers: file-name sanitising, ASCII case folding and
//! line trimming.

use vstd::prelude::*;

verus! {

/// Appends one character to a string by calling `String::push`, which std
/// documents as appending the given char to the end of the string; the
/// contract states exactly that and is trusted, not proved.
#[verifier::external_body]
fn push_char(s: &mut String, c: char)
    ensures
        final(s)@ == old(s)@.push(c),
{
    s.push(c);
}

/// Whether `c` may not stand in a file name and is replaced by `_`.
pub open spec fn is_unsafe_filename_char(c: char) -> bool {
    c == '/' || c == '\\' || c == '\0' || c == ':' || c == '*' || c == '?' || c == '"'
        || c == '<' || c == '>' || c == '|'
}

/// The character that stands for `c` in a sanitised file name.
pub open spec fn sanitized_char(c: char) -> char {
    if is_unsafe_filename_char(c) {
        '_'
    } else {
        c
    }
}

/// `name` with every unsafe character replaced by `_`.
pub open spec fn replaced_unsafe(name: Seq<char>) -> Seq<char> {
    name.map_values(|c: char| sanitized_char(c))
}

/// Whether `name`, joined to a folder, would name the folder itself or its
/// parent rather than an entry inside it: the empty name, `.` and `..`.
pub open spec fn is_reserved_name(name: Seq<char>) -> bool {
    name.len() == 0 || name == seq!['.'] || name == seq!['.', '.']
}

/// The sanitised form of a name: `_` for a reserved name, otherwise the name
/// with every unsafe character replaced by `_`.
pub open spec fn sanitized(name: Seq<char>) -> Seq<char> {
    if is_reserved_name(name) {
        seq!['_']
    } else {
        replaced_unsafe(name)
    }
}

/// Sanitizes a string to be used as a safe filename.
pub fn sanitize_filename(name: &str) -> (res: String)
    ensures
        res@ == sanitized(name@),
        !is_reserved_name(res@),
        forall|i: int| 0 <= i < res@.len() ==> !is_unsafe_filename_char(#[trigger] res@[i]),
{
    let chars = chars_of(name);
    let n = chars.len();
    if n == 0 || (n == 1 && chars[0] == '.') || (n == 2 && chars[0] == '.' && chars[1] == '.') {
        let mut res = String::new();
        push_char(&mut res, '_');
        proof {
            assert(res@ =~= seq!['_']);
            if n == 1 {
                assert(name@ =~= seq!['.']);
            } else if n == 2 {
                assert(name@ =~= seq!['.', '.']);
            }
            assert(is_reserved_name(name@));
            assert(res@[0] == '_');
        }
        return res;
    }
    proof {
        if name@ == seq!['.'] {
            assert(chars@[0] == '.');
        }
        if name@ == seq!['.', '.'] {
            assert(chars@[0] == '.' && chars@[1] == '.');
        }
        assert(!is_reserved_name(name@));
    }
    let mut res = String::new();
    let mut i: usize = 0;
    while i < n
        invariant
            n == chars@.len(),
            chars@ == name@,
            i <= n,
            res@ == replaced_unsafe(name@.take(i as int)),
        decreases n - i,
    {
        let c = chars[i];
        proof {
            assert(name@.take(i + 1) == name@.take(i as int).push(c));
        }
        let d = if c == '/' || c == '\\' || c == '\0' || c == ':' || c == '*' || c == '?'
            || c == '"' || c == '<' || c == '>' || c == '|' {
            '_'
        } else {
            c
        };
        push_char(&mut res, d);
        i = i + 1;
    }
    proof {
        assert(name@.take(name@.len() as int) == name@);
        lemma_sanitized_is_safe(name@);
    }
    res
}

/// A sanitised name is never a reserved name and holds no character that is
/// unsafe in a file name; a name that is not reserved keeps its length and
/// every safe character where it was.
pub proof fn lemma_sanitized_is_safe(name: Seq<char>)
    ensures
        !is_reserved_name(sanitized(name)),
        forall|i: int|
            0 <= i < sanitized(name).len() ==> !is_unsafe_filename_char(#[trigger] sanitized(name)[i]),
        !is_reserved_name(name) ==> sanitized(name).len() == name.len(),
        forall|i: int|
            0 <= i < name.len() && !is_reserved_name(name) && !is_unsafe_filename_char(name[i])
                ==> #[trigger] sanitized(name)[i] == name[i],
{
    if !is_reserved_name(name) {
        let r = replaced_unsafe(name);
        assert(r.len() == name.len());
        assert(seq!['.'].len() == 1);
        assert(seq!['.', '.'].len() == 2);
        if r == seq!['.'] {
            assert(r.len() == 1 && name.len() == 1);
            assert(r[0] == sanitized_char(name[0]));
            assert(name =~= seq!['.']);
        }
        if r == seq!['.', '.'] {
            assert(r.len() == 2 && name.len() == 2);
            assert(r[0] == sanitized_char(name[0]));
            assert(r[1] == sanitized_char(name[1]));
            assert(name =~= seq!['.', '.']);
        }
    } else {
        let r: Seq<char> = seq!['_'];
        assert(r[0] == '_');
        assert(seq!['.'][0] == '.');
        assert(r != seq!['.']);
        assert(r.len() != seq!['.', '.'].len());
    }
}

/// Sanitising a name other than the empty name, `.` and `..` keeps its
/// length, keeps in place every character other than `/`, `\`, NUL, `:`,
/// `*`, `?`, `"`, `<`, `>` and `|`, and turns each of those ten into `_`;
/// the three reserved names become `_`.
pub proof fn lemma_sanitize_char_by_char(name: Seq<char>)
    ensures
        (name.len() == 0 || name == seq!['.'] || name == seq!['.', '.']) ==> sanitized(name)
            == seq!['_'],
        !(name.len() == 0 || name == seq!['.'] || name == seq!['.', '.']) ==> {
            &&& sanitized(name).len() == name.len()
            &&& forall|i: int|
                0 <= i < name.len() ==> {
                    let c = name[i];
                    #[trigger] sanitized(name)[i] == if c == '/' || c == '\\' || c == '\0' || c
                        == ':' || c == '*' || c == '?' || c == '"' || c == '<' || c == '>' || c
                        == '|' {
                        '_'
                    } else {
                        c
                    }
                }
        },
{
}

/// A name that is not reserved and has no unsafe character is its own
/// sanitised form.
pub proof fn lemma_safe_name_unchanged(name: Seq<char>)
    requires
        !is_reserved_name(name),
        forall|i: int| 0 <= i < name.len() ==> !is_unsafe_filename_char(#[trigger] name[i]),
    ensures
        sanitized(name) == name,
{
    assert(replaced_unsafe(name) =~= name);
}

/// Sanitising twice gives what sanitising once gives.
pub proof fn lemma_sanitize_idempotent(name: Seq<char>)
    ensures
        sanitized(sanitized(name)) == sanitized(name),
{
    lemma_sanitized_is_safe(name);
    lemma_safe_name_unchanged(sanitized(name));
}

/// The characters of a string, in order.
pub fn chars_of(s: &str) -> (res: Vec<char>)
    ensures
        res@ == s@,
{
    broadcast use vstd::string::group_string_axioms;
    let mut res: Vec<char> = Vec::new();
    for c in it: s.chars()
        invariant
            it.seq() == s@,
            res@ == s@.take(it.index() as int),
    {
        proof {
            assert(s@.take(it.index() + 1) == s@.take(it.index() as int).push(c));
        }
        res.push(c);
    }
    proof {
        assert(s@.take(s@.len() as int) == s@);
    }
    res
}

/// Whether two strings hold the same characters.
pub fn same_text(a: &str, b: &str) -> (res: bool)
    ensures
        res == (a@ == b@),
{
    let x = chars_of(a);
    let y = chars_of(b);
    if x.len() != y.len() {
        return false;
    }
    let mut i: usize = 0;
    while i < x.len()
        invariant
            x@ == a@,
            y@ == b@,
            x@.len() == y@.len(),
            i <= x@.len(),
            forall|j: int| 0 <= j < i ==> #[trigger] x@[j] == y@[j],
        decreases x@.len() - i,
    {
        if x[i] != y[i] {
            return false;
        }
        i = i + 1;
    }
    proof {
        assert(a@ =~= b@);
    }
    true
}

/// The string made of `chars[from..to]`.
fn string_from_range(chars: &Vec<char>, from: usize, to: usize) -> (res: String)
    requires
        from <= to <= chars@.len(),
    ensures
        res@ == chars@.subrange(from as int, to as int),
{
    let mut res = String::new();
    let mut i = from;
    while i < to
        invariant
            from <= i <= to <= chars@.len(),
            res@ == chars@.subrange(from as int, i as int),
        decreases to - i,
    {
        proof {
            assert(chars@.subrange(from as int, i + 1) == chars@.subrange(from as int, i as int).push(
                chars@[i as int],
            ));
        }
        push_char(&mut res, chars[i]);
        i = i + 1;
    }
    res
}

/// ASCII lowercase of a character: `A`..`Z` map to `a`..`z`, every other
/// character stays as it is.
pub open spec fn ascii_lower(c: char) -> char {
    if 'A' <= c <= 'Z' {
        ((c as u32) + 32) as char
    } else {
        c
    }
}

/// A sequence of characters with every ASCII capital letter lowered.
pub open spec fn ascii_lowered(s: Seq<char>) -> Seq<char> {
    s.map_values(|c: char| ascii_lower(c))
}

/// Whether two strings are equal once ASCII letters are folded to one case.
pub open spec fn eq_ignoring_ascii_case(a: Seq<char>, b: Seq<char>) -> bool {
    ascii_lowered(a) == ascii_lowered(b)
}

/// Two characters are the same letter in two cases, or the same character:
/// equal, or one is an ASCII capital `A`..`Z` and the other the letter 32
/// code points above it.
pub open spec fn same_char_ignoring_ascii_case(x: char, y: char) -> bool {
    ||| x == y
    ||| ('A' <= x && x <= 'Z' && y as u32 == x as u32 + 32)
    ||| ('A' <= y && y <= 'Z' && x as u32 == y as u32 + 32)
}

/// Two strings compare equal ignoring ASCII case exactly when they have the
/// same length and agree position by position up to the case of ASCII
/// letters; no other character is ever folded.
pub proof fn lemma_eq_ignoring_ascii_case_char_by_char(a: Seq<char>, b: Seq<char>)
    ensures
        eq_ignoring_ascii_case(a, b) <==> (a.len() == b.len() && forall|i: int|
            0 <= i < a.len() ==> same_char_ignoring_ascii_case(#[trigger] a[i], b[i])),
{
    assert forall|x: char, y: char|
        #![trigger ascii_lower(x), ascii_lower(y)]
        (ascii_lower(x) == ascii_lower(y)) <==> same_char_ignoring_ascii_case(x, y) by {
        lemma_ascii_lower_pair(x, y);
    }
    if eq_ignoring_ascii_case(a, b) {
        assert(ascii_lowered(a).len() == a.len());
        assert(ascii_lowered(b).len() == b.len());
        assert forall|i: int| 0 <= i < a.len() implies same_char_ignoring_ascii_case(
            #[trigger] a[i],
            b[i],
        ) by {
            assert(ascii_lowered(a)[i] == ascii_lower(a[i]));
            assert(ascii_lowered(b)[i] == ascii_lower(b[i]));
        }
    }
    if a.len() == b.len() && forall|i: int|
        0 <= i < a.len() ==> same_char_ignoring_ascii_case(#[trigger] a[i], b[i]) {
        assert forall|i: int| 0 <= i < a.len() implies #[trigger] ascii_lowered(a)[i]
            == ascii_lowered(b)[i] by {
            lemma_ascii_lower_pair(a[i], b[i]);
        }
        assert(ascii_lowered(a) =~= ascii_lowered(b));
    }
}

proof fn lemma_ascii_lower_pair(x: char, y: char)
    ensures
        (ascii_lower(x) == ascii_lower(y)) <==> same_char_ignoring_ascii_case(x, y),
{
    let ux = x as u32;
    let uy = y as u32;
    if 'A' <= x <= 'Z' {
        assert((ascii_lower(x) as u32) == ux + 32);
    } else {
        assert(ascii_lower(x) == x);
    }
    if 'A' <= y <= 'Z' {
        assert((ascii_lower(y) as u32) == uy + 32);
    } else {
        assert(ascii_lower(y) == y);
    }
}

fn to_ascii_lower(c: char) -> (res: char)
    ensures
        res == ascii_lower(c),
{
    if 'A' <= c && c <= 'Z' {
        let b: u8 = c as u8;
        ((b + 32) as char)
    } else {
        c
    }
}

/// Checks that two strings are an ASCII case-insensitive match.
pub fn eq_ignore_ascii_case(a: &str, b: &str) -> (res: bool)
    ensures
        res == eq_ignoring_ascii_case(a@, b@),
{
    let x = chars_of(a);
    let y = chars_of(b);
    if x.len() != y.len() {
        proof {
            assert(ascii_lowered(a@).len() != ascii_lowered(b@).len());
        }
        return false;
    }
    let mut i: usize = 0;
    while i < x.len()
        invariant
            x@ == a@,
            y@ == b@,
            x@.len() == y@.len(),
            i <= x@.len(),
            forall|j: int| 0 <= j < i ==> ascii_lower(#[trigger] x@[j]) == ascii_lower(y@[j]),
        decreases x@.len() - i,
    {
        if to_ascii_lower(x[i]) != to_ascii_lower(y[i]) {
            proof {
                assert(ascii_lowered(a@)[i as int] != ascii_lowered(b@)[i as int]);
            }
            return false;
        }
        i = i + 1;
    }
    proof {
        assert(ascii_lowered(a@) =~= ascii_lowered(b@));
    }
    true
}


/// The classes of characters that the trimming functions strip.
pub enum CharClass {
    /// `\r` and `\n`.
    LineBreak,
    /// The characters with the Unicode `White_Space` property.
    Whitespace,
}

/// Whether `c` has the Unicode `White_Space` property (the definition that
/// `char::is_whitespace` documents).
pub open spec fn is_unicode_whitespace(c: char) -> bool {
    let u = c as u32;
    ||| 0x09 <= u <= 0x0d
    ||| u == 0x20
    ||| u == 0x85
    ||| u == 0xa0
    ||| u == 0x1680
    ||| 0x2000 <= u <= 0x200a
    ||| u == 0x2028
    ||| u == 0x2029
    ||| u == 0x202f
    ||| u == 0x205f
    ||| u == 0x3000
}

/// Whether `c` belongs to the class `k`.
pub open spec fn in_class(k: CharClass, c: char) -> bool {
    match k {
        CharClass::LineBreak => c == '\r' || c == '\n',
        CharClass::Whitespace => is_unicode_whitespace(c),
    }
}

fn char_in_class(k: &CharClass, c: char) -> (res: bool)
    ensures
        res == in_class(*k, c),
{
    match k {
        CharClass::LineBreak => c == '\r' || c == '\n',
        CharClass::Whitespace => {
            let u: u32 = c as u32;
            (0x09 <= u && u <= 0x0d) || u == 0x20 || u == 0x85 || u == 0xa0 || u == 0x1680 || (
            0x2000 <= u && u <= 0x200a) || u == 0x2028 || u == 0x2029 || u == 0x202f || u == 0x205f
                || u == 0x3000
        },
    }
}

/// `s` with every character of class `k` at its end removed.
pub open spec fn strip_end(s: Seq<char>, k: CharClass) -> Seq<char>
    decreases s.len(),
{
    if s.len() > 0 && in_class(k, s.last()) {
        strip_end(s.drop_last(), k)
    } else {
        s
    }
}

/// `s` with every character of class `k` at its start removed.
pub open spec fn strip_start(s: Seq<char>, k: CharClass) -> Seq<char>
    decreases s.len(),
{
    if s.len() > 0 && in_class(k, s[0]) {
        strip_start(s.drop_first(), k)
    } else {
        s
    }
}

/// `s` with the characters of class `k` removed at both ends.
pub open spec fn strip(s: Seq<char>, k: CharClass) -> Seq<char> {
    strip_start(strip_end(s, k), k)
}

proof fn lemma_strip_end_prefix(s: Seq<char>, k: CharClass, e: int)
    requires
        0 <= e <= s.len(),
        forall|j: int| e <= j < s.len() ==> in_class(k, #[trigger] s[j]),
    ensures
        strip_end(s.take(e), k) == strip_end(s, k),
    decreases s.len() - e,
{
    if e < s.len() {
        lemma_strip_end_prefix(s, k, e + 1);
        assert(s.take(e + 1).drop_last() == s.take(e));
        assert(s.take(e + 1).last() == s[e]);
        assert(strip_end(s.take(e + 1), k) == strip_end(s.take(e), k));
    } else {
        assert(s.take(e) == s);
    }
}

proof fn lemma_strip_start_suffix(s: Seq<char>, k: CharClass, b: int)
    requires
        0 <= b <= s.len(),
        forall|j: int| 0 <= j < b ==> in_class(k, #[trigger] s[j]),
    ensures
        strip_start(s.skip(b), k) == strip_start(s, k),
    decreases b,
{
    if b > 0 {
        lemma_strip_start_suffix(s.drop_first(), k, b - 1);
        assert(s.drop_first().skip(b - 1) == s.skip(b));
        assert forall|j: int| 0 <= j < b - 1 implies in_class(k, #[trigger] s.drop_first()[j]) by {
            assert(s.drop_first()[j] == s[j + 1]);
        }
    } else {
        assert(s.skip(0) == s);
    }
}

/// What `strip_end` removes is a run of characters of class `k` at the end:
/// the result is a prefix of `s`, every character after it is of class `k`,
/// and its own last character is not.
pub proof fn lemma_strip_end_shape(s: Seq<char>, k: CharClass)
    ensures
        strip_end(s, k).len() <= s.len(),
        strip_end(s, k) == s.take(strip_end(s, k).len() as int),
        forall|j: int| strip_end(s, k).len() <= j < s.len() ==> in_class(k, #[trigger] s[j]),
        strip_end(s, k).len() > 0 ==> !in_class(k, strip_end(s, k).last()),
    decreases s.len(),
{
    if s.len() > 0 && in_class(k, s.last()) {
        lemma_strip_end_shape(s.drop_last(), k);
        let t = strip_end(s.drop_last(), k);
        assert(s.drop_last().take(t.len() as int) == s.take(t.len() as int));
        assert forall|j: int| t.len() <= j < s.len() implies in_class(k, #[trigger] s[j]) by {
            if j < s.len() - 1 {
                assert(s.drop_last()[j] == s[j]);
            }
        }
    } else {
        assert(s.take(s.len() as int) == s);
    }
}

/// What `strip_start` removes is a run of characters of class `k` at the
/// start: the result is a suffix of `s`, every character before it is of
/// class `k`, and its own first character is not.
pub proof fn lemma_strip_start_shape(s: Seq<char>, k: CharClass)
    ensures
        strip_start(s, k).len() <= s.len(),
        strip_start(s, k) == s.skip(s.len() - strip_start(s, k).len()),
        forall|j: int|
            0 <= j < s.len() - strip_start(s, k).len() ==> in_class(k, #[trigger] s[j]),
        strip_start(s, k).len() > 0 ==> !in_class(k, strip_start(s, k)[0]),
    decreases s.len(),
{
    if s.len() > 0 && in_class(k, s[0]) {
        lemma_strip_start_shape(s.drop_first(), k);
        let t = strip_start(s.drop_first(), k);
        assert(s.drop_first().skip(s.len() - 1 - t.len()) == s.skip(s.len() - t.len()));
        assert forall|j: int| 0 <= j < s.len() - t.len() implies in_class(k, #[trigger] s[j]) by {
            if j > 0 {
                assert(s.drop_first()[j - 1] == s[j]);
            }
        }
    } else {
        assert(s.skip(0) == s);
    }
}

/// Stripping the end a second time changes nothing.
pub proof fn lemma_strip_end_idempotent(s: Seq<char>, k: CharClass)
    ensures
        strip_end(strip_end(s, k), k) == strip_end(s, k),
{
    lemma_strip_end_shape(s, k);
}

/// Trimming both ends a second time changes nothing.
pub proof fn lemma_strip_idempotent(s: Seq<char>, k: CharClass)
    ensures
        strip(strip(s, k), k) == strip(s, k),
{
    let t = strip_end(s, k);
    lemma_strip_end_shape(s, k);
    let u = strip_start(t, k);
    lemma_strip_start_shape(t, k);
    if u.len() > 0 {
        assert(u.last() == t.last());
        assert(strip_end(u, k) == u);
        assert(strip_start(u, k) == u);
    } else {
        assert(strip_end(u, k) == u);
        assert(strip_start(u, k) == u);
    }
}

/// The code points that Unicode's PropList gives the `White_Space`
/// property: U+0009..U+000D, U+0020, U+0085, U+00A0, U+1680,
/// U+2000..U+200A, U+2028, U+2029, U+202F, U+205F and U+3000.
pub open spec fn has_white_space_property(c: char) -> bool {
    let u = c as u32;
    u == 9 || u == 10 || u == 11 || u == 12 || u == 13 || u == 32 || u == 133 || u == 160 || u
        == 5760 || (8192 <= u && u <= 8202) || u == 8232 || u == 8233 || u == 8239 || u == 8287
        || u == 12288
}

/// Trimming whitespace keeps a contiguous run `s[b..b + len]` of the input
/// and removes only characters with the `White_Space` property before and
/// after it (so never a printable ASCII character other than the space);
/// the run kept neither starts nor ends with such a character.
pub proof fn lemma_trim_removes_only_white_space(s: Seq<char>) -> (b: int)
    ensures
        0 <= b <= b + strip(s, CharClass::Whitespace).len() <= s.len(),
        strip(s, CharClass::Whitespace) == s.subrange(
            b,
            b + strip(s, CharClass::Whitespace).len(),
        ),
        forall|j: int|
            (0 <= j < b || b + strip(s, CharClass::Whitespace).len() <= j < s.len())
                ==> has_white_space_property(#[trigger] s[j]) && !(33 <= s[j] as u32
                && s[j] as u32 <= 126),
        strip(s, CharClass::Whitespace).len() > 0 ==> !has_white_space_property(
            strip(s, CharClass::Whitespace)[0],
        ) && !has_white_space_property(strip(s, CharClass::Whitespace).last()),
{
    let k = CharClass::Whitespace;
    let t = strip_end(s, k);
    lemma_strip_end_shape(s, k);
    let u = strip_start(t, k);
    lemma_strip_start_shape(t, k);
    let b = t.len() - u.len();
    assert(u =~= s.subrange(b, b + u.len()));
    assert forall|j: int|
        (0 <= j < b || b + u.len() <= j < s.len()) implies has_white_space_property(
        #[trigger] s[j],
    ) && !(33 <= s[j] as u32 && s[j] as u32 <= 126) by {
        if j < b {
            assert(t[j] == s[j]);
        }
    }
    if u.len() > 0 {
        assert(u.last() == t.last());
    }
    b
}

/// Stripping line endings keeps a prefix of the input and removes only `\r`
/// and `\n` after it; the prefix kept does not end with either.
pub proof fn lemma_line_ending_removes_only_breaks(s: Seq<char>)
    ensures
        strip_end(s, CharClass::LineBreak) == s.take(strip_end(s, CharClass::LineBreak).len() as int),
        forall|j: int|
            strip_end(s, CharClass::LineBreak).len() <= j < s.len() ==> #[trigger] s[j] == '\r'
                || s[j] == '\n',
        strip_end(s, CharClass::LineBreak).len() > 0 ==> strip_end(s, CharClass::LineBreak).last()
            != '\r' && strip_end(s, CharClass::LineBreak).last() != '\n',
{
    lemma_strip_end_shape(s, CharClass::LineBreak);
}

/// The index just past the last character of `chars[..end]` that is not of
/// class `k`.
fn end_outside_class(chars: &Vec<char>, k: &CharClass, end: usize) -> (res: usize)
    requires
        end <= chars@.len(),
    ensures
        res <= end,
        strip_end(chars@.take(end as int), *k) == chars@.take(res as int),
{
    let mut e = end;
    while e > 0 && char_in_class(k, chars[e - 1])
        invariant
            e <= end <= chars@.len(),
            forall|j: int| e <= j < end ==> in_class(*k, #[trigger] chars@[j]),
        decreases e,
    {
        e = e - 1;
    }
    proof {
        let t = chars@.take(end as int);
        lemma_strip_end_prefix(t, *k, e as int);
        assert(t.take(e as int) == chars@.take(e as int));
        if e > 0 {
            assert(chars@.take(e as int).last() == chars@[e - 1]);
        }
    }
    e
}

/// The index of the first character of `chars[..end]` that is not of class
/// `k`, or `end` when there is none.
fn start_outside_class(chars: &Vec<char>, k: &CharClass, end: usize) -> (res: usize)
    requires
        end <= chars@.len(),
    ensures
        res <= end,
        strip_start(chars@.take(end as int), *k) == chars@.subrange(res as int, end as int),
{
    let mut b: usize = 0;
    while b < end && char_in_class(k, chars[b])
        invariant
            b <= end <= chars@.len(),
            forall|j: int| 0 <= j < b ==> in_class(*k, #[trigger] chars@[j]),
        decreases end - b,
    {
        b = b + 1;
    }
    proof {
        let t = chars@.take(end as int);
        assert forall|j: int| 0 <= j < b implies in_class(*k, #[trigger] t[j]) by {
            assert(t[j] == chars@[j]);
        }
        lemma_strip_start_suffix(t, *k, b as int);
        assert(t.skip(b as int) == chars@.subrange(b as int, end as int));
        if b < end {
            assert(t.skip(b as int)[0] == chars@[b as int]);
        }
    }
    b
}

/// The string with every trailing `\r` and `\n` removed.
pub fn trim_line_ending(s: &str) -> (res: String)
    ensures
        res@ == strip_end(s@, CharClass::LineBreak),
{
    let chars = chars_of(s);
    let k = CharClass::LineBreak;
    let e = end_outside_class(&chars, &k, chars.len());
    proof {
        assert(chars@.take(chars@.len() as int) == chars@);
        assert(chars@.subrange(0, e as int) == chars@.take(e as int));
    }
    string_from_range(&chars, 0, e)
}

/// The string with leading and trailing whitespace removed.
pub fn trim_whitespace(s: &str) -> (res: String)
    ensures
        res@ == strip(s@, CharClass::Whitespace),
{
    let chars = chars_of(s);
    let k = CharClass::Whitespace;
    let e = end_outside_class(&chars, &k, chars.len());
    let b = start_outside_class(&chars, &k, e);
    proof {
        assert(chars@.take(chars@.len() as int) == chars@);
    }
    string_from_range(&chars, b, e)
}

} // verus!
