//! Small building blocks for working with `String` and `&str` values whose
//! meaning is a sequence of characters.

use vstd::prelude::*;

verus! {

/// `String::push` appends exactly one character and leaves the rest of the
/// string as it was.
pub assume_specification[ String::push ](s: &mut String, c: char)
    ensures
        final(s)@ == old(s)@.push(c),
;

/// Copies a string slice into an owned string.
pub fn owned(s: &str) -> (r: String)
    ensures
        r@ == s@,
{
    let mut r = String::new();
    r.append(s);
    assert(r@ =~= s@);
    r
}

/// The characters of a string, in order.
pub fn chars_of(s: &str) -> (v: Vec<char>)
    ensures
        v@ == s@,
{
    let mut v: Vec<char> = Vec::new();
    for c in it: s.chars()
        invariant
            it.seq() == s@,
            v@ == s@.take(it.index()),
    {
        v.push(c);
        assert(v@ =~= s@.take(it.index() + 1));
    }
    assert(s@.take(s@.len() as int) =~= s@);
    v
}

/// The string made of the characters `v[from..to]`.
pub fn text_of(v: &Vec<char>, from: usize, to: usize) -> (r: String)
    requires
        from <= to <= v.len(),
    ensures
        r@ == v@.subrange(from as int, to as int),
{
    let mut r = String::new();
    let mut i: usize = from;
    while i < to
        invariant
            from <= i <= to <= v.len(),
            r@ == v@.subrange(from as int, i as int),
        decreases to - i,
    {
        r.push(v[i]);
        i += 1;
        assert(r@ =~= v@.subrange(from as int, i as int));
    }
    r
}

/// `needle` occurs in `hay` starting at position `at`.
pub open spec fn occurs_at(hay: Seq<char>, needle: Seq<char>, at: int) -> bool {
    &&& 0 <= at
    &&& at + needle.len() <= hay.len()
    &&& hay.subrange(at, at + needle.len()) == needle
}

/// `needle` occurs somewhere in `hay`.
pub open spec fn occurs_in(hay: Seq<char>, needle: Seq<char>) -> bool {
    exists|at: int| occurs_at(hay, needle, at)
}

/// Whether `needle` occurs in `hay` starting at position `at`.
pub fn found_at(hay: &Vec<char>, needle: &Vec<char>, at: usize) -> (r: bool)
    ensures
        r == occurs_at(hay@, needle@, at as int),
{
    if needle.len() > hay.len() || at > hay.len() - needle.len() {
        return false;
    }
    let mut k: usize = 0;
    while k < needle.len()
        invariant
            k <= needle.len(),
            at + needle.len() <= hay.len(),
            forall|j: int| 0 <= j < k ==> hay@[at + j] == needle@[j],
        decreases needle.len() - k,
    {
        if hay[at + k] != needle[k] {
            assert(hay@.subrange(at as int, at + needle.len())[k as int] == hay@[at + k]);
            return false;
        }
        k += 1;
    }
    assert(hay@.subrange(at as int, at + needle.len()) =~= needle@);
    true
}

/// Whether `hay` begins with `prefix`.
pub fn starts_with(hay: &str, prefix: &str) -> (r: bool)
    ensures
        r == occurs_at(hay@, prefix@, 0),
{
    let h = chars_of(hay);
    let p = chars_of(prefix);
    found_at(&h, &p, 0)
}

/// Whether `needle` occurs anywhere in `hay`.
pub fn contains_text(hay: &str, needle: &str) -> (r: bool)
    ensures
        r == occurs_in(hay@, needle@),
{
    let h = chars_of(hay);
    let n = chars_of(needle);
    if n.len() > h.len() {
        return false;
    }
    let last: usize = h.len() - n.len();
    let mut at: usize = 0;
    loop
        invariant
            last == h.len() - n.len(),
            at <= last,
            h@ == hay@,
            n@ == needle@,
            forall|j: int| 0 <= j < at ==> !occurs_at(hay@, needle@, j),
        decreases last - at,
    {
        if found_at(&h, &n, at) {
            return true;
        }
        if at == last {
            return false;
        }
        at += 1;
    }
}

/// White space in the sense of Unicode's `White_Space` property, which is
/// what trimming a string removes.
pub open spec fn is_blank(c: char) -> bool {
    ||| '\u{9}' <= c <= '\u{d}'
    ||| c == ' '
    ||| c == '\u{85}'
    ||| c == '\u{a0}'
    ||| c == '\u{1680}'
    ||| '\u{2000}' <= c <= '\u{200a}'
    ||| c == '\u{2028}'
    ||| c == '\u{2029}'
    ||| c == '\u{202f}'
    ||| c == '\u{205f}'
    ||| c == '\u{3000}'
}

/// Whether a character is white space.
pub fn blank(c: char) -> (r: bool)
    ensures
        r == is_blank(c),
{
    ('\u{9}' <= c && c <= '\u{d}') || c == ' ' || c == '\u{85}' || c == '\u{a0}' || c == '\u{1680}'
        || ('\u{2000}' <= c && c <= '\u{200a}') || c == '\u{2028}' || c == '\u{2029}' || c
        == '\u{202f}' || c == '\u{205f}' || c == '\u{3000}'
}

/// Where the text left after trimming starts: the position of the first
/// character at or after `from` that is not white space, or the length.
pub open spec fn trim_start(s: Seq<char>, from: int) -> int
    decreases s.len() - from,
{
    if 0 <= from < s.len() && is_blank(s[from]) {
        trim_start(s, from + 1)
    } else {
        from
    }
}

/// Where the text left after trimming ends, searching backwards from `to`
/// and never going below `floor`.
pub open spec fn trim_end(s: Seq<char>, floor: int, to: int) -> int
    decreases to - floor,
{
    if floor < to <= s.len() && is_blank(s[to - 1]) {
        trim_end(s, floor, to - 1)
    } else {
        to
    }
}

/// A text without its leading and trailing white space.
pub open spec fn trimmed(s: Seq<char>) -> Seq<char> {
    let a = trim_start(s, 0);
    s.subrange(a, trim_end(s, a, s.len() as int))
}

/// Finds the range of `v` that trimming leaves.
pub fn trim_range(v: &Vec<char>) -> (r: (usize, usize))
    ensures
        r.0 <= r.1 <= v.len(),
        r.0 == trim_start(v@, 0),
        r.1 == trim_end(v@, r.0 as int, v.len() as int),
        v@.subrange(r.0 as int, r.1 as int) == trimmed(v@),
{
    let mut a: usize = 0;
    while a < v.len() && blank(v[a])
        invariant
            a <= v.len(),
            trim_start(v@, 0) == trim_start(v@, a as int),
        decreases v.len() - a,
    {
        a += 1;
    }
    let mut b: usize = v.len();
    while a < b && blank(v[b - 1])
        invariant
            a <= b <= v.len(),
            trim_end(v@, a as int, v.len() as int) == trim_end(v@, a as int, b as int),
        decreases b - a,
    {
        b -= 1;
    }
    (a, b)
}

/// The lower-case form of an ASCII capital letter; any other character is
/// itself.
pub open spec fn ascii_lower(c: char) -> char {
    if 'A' <= c <= 'Z' {
        ((c as u8) + 32) as char
    } else {
        c
    }
}

/// A text with its ASCII capital letters in lower case.
pub open spec fn lowered(s: Seq<char>) -> Seq<char> {
    Seq::new(s.len(), |i: int| ascii_lower(s[i]))
}

/// The lower-case form of a character, as far as ASCII goes.
pub fn lower(c: char) -> (r: char)
    ensures
        r == ascii_lower(c),
{
    if 'A' <= c && c <= 'Z' {
        ((c as u8) + 32) as char
    } else {
        c
    }
}

/// The character that writes the digit `d`.
pub open spec fn digit_char(d: nat) -> char {
    (48 + d) as char
}

/// The decimal notation of a number, without leading zeros.
pub open spec fn decimal_text(n: nat) -> Seq<char>
    decreases n,
{
    if n < 10 {
        seq![digit_char(n)]
    } else {
        decimal_text(n / 10).push(digit_char(n % 10))
    }
}

/// Writes a number in decimal notation.
pub fn decimal(n: u64) -> (r: String)
    ensures
        r@ == decimal_text(n as nat),
{
    let mut digits: Vec<char> = Vec::new();
    let mut rest: u64 = n;
    while rest >= 10
        invariant
            decimal_text(n as nat) == decimal_text(rest as nat) + digits@.reverse(),
        decreases rest,
    {
        let d: u8 = (rest % 10) as u8;
        let ghost before = digits@;
        digits.push((48u8 + d) as char);
        assert(digits@.reverse() =~= seq![digit_char((rest % 10) as nat)] + before.reverse());
        assert(decimal_text(rest as nat) + before.reverse() =~= decimal_text((rest / 10) as nat)
            + digits@.reverse());
        rest = rest / 10;
    }
    let mut r = String::new();
    r.push((48u8 + (rest as u8)) as char);
    let mut i: usize = digits.len();
    while i > 0
        invariant
            i <= digits.len(),
            r@ == decimal_text(rest as nat) + digits@.reverse().take(digits.len() - i),
            rest < 10,
        decreases i,
    {
        i -= 1;
        r.push(digits[i]);
        assert(r@ =~= decimal_text(rest as nat) + digits@.reverse().take(digits.len() - i));
    }
    assert(digits@.reverse().take(digits.len() as int) =~= digits@.reverse());
    r
}

/// The texts of a list of strings, in order.
pub open spec fn texts(v: Seq<String>) -> Seq<Seq<char>> {
    Seq::new(v.len(), |i: int| v[i]@)
}

/// `d` is the text of one of `list`.
pub open spec fn listed(list: Seq<String>, d: Seq<char>) -> bool {
    exists|i: int| 0 <= i < list.len() && (#[trigger] list[i])@ == d
}

/// Whether `d` is already in `list`.
pub fn is_listed(list: &Vec<String>, d: &String) -> (r: bool)
    ensures
        r == listed(list@, d@),
        r == texts(list@).contains(d@),
{
    proof {
        lemma_listed_texts(list@, d@);
    }
    let mut i: usize = 0;
    while i < list.len()
        invariant
            i <= list.len(),
            listed(list@, d@) == texts(list@).contains(d@),
            forall|j: int| 0 <= j < i ==> list@[j]@ != d@,
        decreases list.len() - i,
    {
        if list[i] == *d {
            return true;
        }
        i += 1;
    }
    false
}


/// A text is listed exactly when the texts of the list contain it.
pub proof fn lemma_listed_texts(list: Seq<String>, d: Seq<char>)
    ensures
        listed(list, d) == texts(list).contains(d),
{
    if listed(list, d) {
        let i = choose|i: int| 0 <= i < list.len() && (#[trigger] list[i])@ == d;
        assert(texts(list)[i] == d);
    }
    if texts(list).contains(d) {
        let i = choose|i: int| 0 <= i < texts(list).len() && texts(list)[i] == d;
        assert(list[i]@ == d);
    }
}

/// The texts of a list that grew by one string.
pub proof fn lemma_texts_push(v: Seq<String>, s: String)
    ensures
        texts(v.push(s)) == texts(v).push(s@),
{
    assert(texts(v.push(s)) =~= texts(v).push(s@));
}

} // verus!
