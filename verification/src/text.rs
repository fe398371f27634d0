//! Text as sequences of characters: character classes, file names and
//! their parts, decimal numbers, and the few conversions between `String`
//! and `Vec<char>` that the rest of the library builds on.

use vstd::prelude::*;
use vstd::string::*;

verus! {

/// An ASCII decimal digit.
pub open spec fn is_digit(c: char) -> bool {
    '0' <= c <= '9'
}

/// An upper-case ASCII letter.
pub open spec fn is_upper(c: char) -> bool {
    'A' <= c <= 'Z'
}

/// An ASCII letter or digit.
pub open spec fn is_alnum(c: char) -> bool {
    is_digit(c) || is_upper(c) || ('a' <= c <= 'z')
}

/// Every character of `s` is an ASCII digit.
pub open spec fn all_digits(s: Seq<char>) -> bool {
    forall|i: int| 0 <= i < s.len() ==> is_digit(#[trigger] s[i])
}

/// Every character of `s` is an ASCII letter or digit.
pub open spec fn all_alnum(s: Seq<char>) -> bool {
    forall|i: int| 0 <= i < s.len() ==> is_alnum(#[trigger] s[i])
}

/// The lower-case form of an ASCII letter; any other character is kept.
pub open spec fn lower_char(c: char) -> char {
    if is_upper(c) {
        ((c as u32) + 32) as char
    } else {
        c
    }
}

/// `s` with every upper-case ASCII letter replaced by its lower-case form.
pub open spec fn lowered(s: Seq<char>) -> Seq<char> {
    Seq::new(s.len(), |i: int| lower_char(s[i]))
}

/// Where the last `/` of `path` stands, or -1 where it has none.
pub open spec fn last_slash(path: Seq<char>) -> int {
    match path.index_of_last('/') {
        Some(i) => i,
        None => -1,
    }
}

/// The last component of `path`: what follows its last `/`.
pub open spec fn file_name_of(path: Seq<char>) -> Seq<char> {
    path.skip(last_slash(path) + 1)
}

/// Where the dot stands that parts the stem of a file name from its
/// extension: the last dot, unless it is the first character. -1 where the
/// name has no extension.
pub open spec fn extension_dot(name: Seq<char>) -> int {
    match name.index_of_last('.') {
        Some(i) => if i > 0 { i } else { -1 },
        None => -1,
    }
}

/// Whether a file name has an extension (which may be empty, as in `a.`).
pub open spec fn has_extension(name: Seq<char>) -> bool {
    extension_dot(name) > 0
}

/// The file name without its extension and the dot before it.
pub open spec fn stem_of(name: Seq<char>) -> Seq<char> {
    if has_extension(name) {
        name.take(extension_dot(name))
    } else {
        name
    }
}

/// What follows the extension dot; empty where the name has no extension.
pub open spec fn extension_of(name: Seq<char>) -> Seq<char> {
    if has_extension(name) {
        name.skip(extension_dot(name) + 1)
    } else {
        Seq::empty()
    }
}

/// The character that stands for the digit `d`.
pub open spec fn digit_char(d: nat) -> char {
    (d + 48) as char
}

/// The decimal numeral of `n`, without leading zeros.
pub open spec fn decimal(n: nat) -> Seq<char>
    decreases n,
{
    if n < 10 {
        seq![digit_char(n)]
    } else {
        decimal(n / 10).push(digit_char(n % 10))
    }
}

/// The value of an ASCII digit.
pub open spec fn digit_value(c: char) -> int {
    (c as int) - 48
}

/// `a` comes before `b` in dictionary order, character by character, or
/// equals it.
pub open spec fn text_le(a: Seq<char>, b: Seq<char>) -> bool
    decreases a.len(),
{
    if a.len() == 0 {
        true
    } else if b.len() == 0 {
        false
    } else if a[0] != b[0] {
        a[0] < b[0]
    } else {
        text_le(a.skip(1), b.skip(1))
    }
}

/// How the standard library writes a text for debugging: between double
/// quotes, with what cannot be shown as it is written as an escape.
pub uninterp spec fn debug_text(s: Seq<char>) -> Seq<char>;

/// A text as the standard library writes it for debugging.
///
/// Trusted: the body formats the text with `{:?}`, the `Debug` form of
/// `str`, whose result depends on the text alone. The contract gives
/// that result a name and claims nothing else of it.
#[verifier::external_body]
pub(crate) fn quoted(s: &str) -> (r: String)
    ensures
        r@ == debug_text(s@),
{
    format!("{:?}", s)
}

/// Appends one character to a string.
///
/// Trusted: the body is `String::push`, of which the standard library
/// documents that it appends the given character to the end of the string.
#[verifier::external_body]
pub(crate) fn push_char(s: &mut String, c: char)
    ensures
        final(s)@ == old(s)@.push(c),
{
    s.push(c);
}

/// The characters of a string, in order.
pub fn chars_of(s: &str) -> (v: Vec<char>)
    ensures
        v@ == s@,
{
    let mut v: Vec<char> = Vec::new();
    for c in it: s.chars()
        invariant
            it.seq() == s@,
            v@ == s@.take(it.index() as int),
    {
        v.push(c);
        assert(s@.take(it.index() + 1) =~= s@.take(it.index() as int).push(c));
    }
    assert(s@.take(s@.len() as int) =~= s@);
    v
}

/// Whether two sequences of characters are the same.
pub(crate) fn same_chars(x: &Vec<char>, y: &Vec<char>) -> (r: bool)
    ensures
        r == (x@ == y@),
{
    if x.len() != y.len() {
        return false;
    }
    let mut i: usize = 0;
    while i < x.len()
        invariant
            i <= x.len(),
            x.len() == y.len(),
            forall|j: int| 0 <= j < i ==> x@[j] == y@[j],
        decreases x.len() - i,
    {
        if x[i] != y[i] {
            return false;
        }
        i = i + 1;
    }
    assert(x@ =~= y@);
    true
}

/// Whether two texts read the same.
pub fn same_text(a: &str, b: &str) -> (r: bool)
    ensures
        r == (a@ == b@),
{
    let x = chars_of(a);
    let y = chars_of(b);
    same_chars(&x, &y)
}

/// The file name at the end of a path, as a string.
pub fn leaf_of(path: &str) -> (r: String)
    ensures
        r@ == file_name_of(path@),
{
    let chars = chars_of(path);
    let name = file_name(&chars);
    let r = text_of(&name, 0, name.len());
    assert(name@.subrange(0, name@.len() as int) =~= name@);
    r
}

/// `stem`, a dot, and `extension`.
pub fn dotted(stem: &str, extension: &str) -> (r: String)
    ensures
        r@ == stem@ + seq!['.'] + extension@,
{
    let mut r = String::from_str(stem);
    push_char(&mut r, '.');
    r.append(extension);
    r
}

/// The string made of the characters `v[from..to]`.
pub(crate) fn text_of(v: &Vec<char>, from: usize, to: usize) -> (r: String)
    requires
        from <= to <= v.len(),
    ensures
        r@ == v@.subrange(from as int, to as int),
{
    let mut r = String::new();
    let mut i: usize = from;
    while i < to
        invariant
            from <= i <= to <= v.len(),
            r@ == v@.subrange(from as int, i as int),
        decreases to - i,
    {
        push_char(&mut r, v[i]);
        assert(v@.subrange(from as int, i + 1) =~= v@.subrange(from as int, i as int).push(
            v@[i as int],
        ));
        i = i + 1;
    }
    r
}

/// The lower-case form of an ASCII letter; any other character is kept.
pub(crate) fn to_lower(c: char) -> (r: char)
    ensures
        r == lower_char(c),
{
    if 'A' <= c && c <= 'Z' {
        let code: u8 = (c as u8) + 32;
        code as char
    } else {
        c
    }
}

/// The string made of the characters `v[from..to]`, upper-case ASCII
/// letters replaced by their lower-case forms.
pub(crate) fn lowered_text_of(v: &Vec<char>, from: usize, to: usize) -> (r: String)
    requires
        from <= to <= v.len(),
    ensures
        r@ == lowered(v@.subrange(from as int, to as int)),
{
    let mut r = String::new();
    let mut i: usize = from;
    while i < to
        invariant
            from <= i <= to <= v.len(),
            r@ == lowered(v@.subrange(from as int, i as int)),
        decreases to - i,
    {
        push_char(&mut r, to_lower(v[i]));
        assert(lowered(v@.subrange(from as int, i + 1)) =~= lowered(
            v@.subrange(from as int, i as int),
        ).push(lower_char(v@[i as int])));
        i = i + 1;
    }
    assert(lowered(v@.subrange(from as int, from as int)) =~= Seq::<char>::empty());
    r
}

/// Appends the decimal numeral of `n` to `out`.
pub(crate) fn push_decimal(out: &mut String, n: u64)
    ensures
        final(out)@ == old(out)@ + decimal(n as nat),
    decreases n,
{
    if n >= 10 {
        push_decimal(out, n / 10);
    }
    let d: u8 = (n % 10) as u8;
    let code: u8 = d + 48;
    push_char(out, code as char);
    assert(out@ =~= old(out)@ + decimal(n as nat));
}

/// The stem of a file name and, where it has one, its extension.
#[derive(Debug, PartialEq, Eq)]
pub struct NameParts {
    pub stem: String,
    pub extension: Option<String>,
}

/// The stem and the extension of the file name at the end of `path`.
pub fn name_parts(path: &str) -> (r: NameParts)
    ensures
        r.stem@ == stem_of(file_name_of(path@)),
        match r.extension {
            Some(e) => has_extension(file_name_of(path@)) && e@ == extension_of(
                file_name_of(path@),
            ),
            None => !has_extension(file_name_of(path@)),
        },
{
    let chars = chars_of(path);
    let name = file_name(&chars);
    match find_extension_dot(&name) {
        Some(d) => {
            let stem = text_of(&name, 0, d);
            let extension = text_of(&name, d + 1, name.len());
            NameParts { stem, extension: Some(extension) }
        },
        None => {
            let stem = text_of(&name, 0, name.len());
            assert(name@.subrange(0, name@.len() as int) =~= name@);
            NameParts { stem, extension: None }
        },
    }
}

/// Whether `c` is an ASCII digit.
pub(crate) fn digit(c: char) -> (r: bool)
    ensures
        r == is_digit(c),
{
    '0' <= c && c <= '9'
}

/// Whether `c` is an ASCII letter or digit.
pub(crate) fn alnum(c: char) -> (r: bool)
    ensures
        r == is_alnum(c),
{
    ('0' <= c && c <= '9') || ('A' <= c && c <= 'Z') || ('a' <= c && c <= 'z')
}

/// Whether `v[from..to]` holds ASCII digits only.
pub(crate) fn all_digits_in(v: &Vec<char>, from: usize, to: usize) -> (r: bool)
    requires
        from <= to <= v.len(),
    ensures
        r == all_digits(v@.subrange(from as int, to as int)),
{
    let mut i: usize = from;
    while i < to
        invariant
            from <= i <= to <= v.len(),
            forall|j: int| from <= j < i ==> is_digit(#[trigger] v@[j]),
        decreases to - i,
    {
        if !digit(v[i]) {
            assert(!is_digit(v@.subrange(from as int, to as int)[i - from]));
            return false;
        }
        i = i + 1;
    }
    true
}

/// Whether `v[from..to]` holds ASCII letters and digits only.
pub(crate) fn all_alnum_in(v: &Vec<char>, from: usize, to: usize) -> (r: bool)
    requires
        from <= to <= v.len(),
    ensures
        r == all_alnum(v@.subrange(from as int, to as int)),
{
    let mut i: usize = from;
    while i < to
        invariant
            from <= i <= to <= v.len(),
            forall|j: int| from <= j < i ==> is_alnum(#[trigger] v@[j]),
        decreases to - i,
    {
        if !alnum(v[i]) {
            assert(!is_alnum(v@.subrange(from as int, to as int)[i - from]));
            return false;
        }
        i = i + 1;
    }
    true
}

/// Where `c` first occurs in `v`.
pub(crate) fn find_first(v: &Vec<char>, c: char) -> (r: Option<usize>)
    ensures
        match r {
            Some(i) => i < v.len() && v@.index_of_first(c) == Some(i as int),
            None => v@.index_of_first(c) is None,
        },
{
    let mut i: usize = 0;
    while i < v.len()
        invariant
            i <= v.len(),
            forall|j: int| 0 <= j < i ==> v@[j] != c,
        decreases v.len() - i,
    {
        if v[i] == c {
            proof {
                v@.index_of_first_ensures(c);
            }
            return Some(i);
        }
        i = i + 1;
    }
    proof {
        v@.index_of_first_ensures(c);
    }
    None
}

/// Where `c` last occurs in `v`.
pub(crate) fn find_last(v: &Vec<char>, c: char) -> (r: Option<usize>)
    ensures
        match r {
            Some(i) => i < v.len() && v@.index_of_last(c) == Some(i as int),
            None => v@.index_of_last(c) is None,
        },
{
    let mut i: usize = v.len();
    while i > 0
        invariant
            i <= v.len(),
            forall|j: int| i <= j < v.len() ==> v@[j] != c,
        decreases i,
    {
        i = i - 1;
        if v[i] == c {
            proof {
                v@.index_of_last_ensures(c);
            }
            return Some(i);
        }
    }
    proof {
        v@.index_of_last_ensures(c);
    }
    None
}

/// A copy of `v[from..to]`.
pub(crate) fn sub_vec(v: &Vec<char>, from: usize, to: usize) -> (r: Vec<char>)
    requires
        from <= to <= v.len(),
    ensures
        r@ == v@.subrange(from as int, to as int),
{
    let mut r: Vec<char> = Vec::new();
    let mut i: usize = from;
    while i < to
        invariant
            from <= i <= to <= v.len(),
            r@ == v@.subrange(from as int, i as int),
        decreases to - i,
    {
        r.push(v[i]);
        assert(v@.subrange(from as int, i + 1) =~= v@.subrange(from as int, i as int).push(
            v@[i as int],
        ));
        i = i + 1;
    }
    r
}

/// The file name within a path: what follows the last `/`.
pub(crate) fn file_name(path: &Vec<char>) -> (r: Vec<char>)
    ensures
        r@ == file_name_of(path@),
{
    match find_last(path, '/') {
        Some(i) => sub_vec(path, i + 1, path.len()),
        None => sub_vec(path, 0, path.len()),
    }
}

/// Where the extension dot of a file name stands, if it has an extension.
pub(crate) fn find_extension_dot(name: &Vec<char>) -> (r: Option<usize>)
    ensures
        match r {
            Some(i) => has_extension(name@) && extension_dot(name@) == i && 0 < i < name.len(),
            None => !has_extension(name@),
        },
{
    match find_last(name, '.') {
        Some(i) => if i > 0 {
            Some(i)
        } else {
            None
        },
        None => None,
    }
}

} // verus!
