//! Text as sequences of characters.

use vstd::prelude::*;
use vstd::string::*;

verus! {

/// What `str::to_lowercase` makes of a text: its lowercase by the Unicode tables
/// of the standard library. The lowercase of a character can depend on those
/// around it, as that of a sigma at the end of a word does.
pub uninterp spec fn lowercase(s: Seq<char>) -> Seq<char>;

/// All characters are ASCII characters.
pub open spec fn is_ascii(s: Seq<char>) -> bool {
    forall|i: int| 0 <= i < s.len() ==> (#[trigger] s[i]) as u32 <= 127
}

/// The letters `A` to `Z` in lower case, anything else as it is.
pub open spec fn ascii_lower(c: char) -> char {
    if 65 <= c as u32 <= 90 {
        (c as u32 + 32) as char
    } else {
        c
    }
}

/// The letters `a` to `z` in upper case, anything else as it is.
pub open spec fn ascii_upper(c: char) -> char {
    if 97 <= c as u32 <= 122 {
        (c as u32 - 32) as char
    } else {
        c
    }
}

/// A text with its ASCII letters in lower case.
pub open spec fn ascii_lowercase(s: Seq<char>) -> Seq<char> {
    s.map_values(|c: char| ascii_lower(c))
}

/// A text with its ASCII letters in upper case.
pub open spec fn ascii_uppercase(s: Seq<char>) -> Seq<char> {
    s.map_values(|c: char| ascii_upper(c))
}

/// `str::to_lowercase`. The result is a function of the text alone. On a text of
/// ASCII characters it is the text with the letters `A` to `Z` replaced by `a`
/// to `z`; on any other, which one is left to the Unicode tables.
pub assume_specification[ str::to_lowercase ](s: &str) -> (res: String)
    ensures
        res@ == lowercase(s@),
        is_ascii(s@) ==> res@ == ascii_lowercase(s@),
;

/// A text in lower case.
pub open spec fn lowered(s: Seq<char>) -> Seq<char> {
    if is_ascii(s) {
        ascii_lowercase(s)
    } else {
        lowercase(s)
    }
}

/// For ASCII texts, the case they are written in is lost in lower case.
pub proof fn lower_case_forgets_case(s: Seq<char>)
    requires
        is_ascii(s),
    ensures
        is_ascii(ascii_uppercase(s)),
        is_ascii(ascii_lowercase(s)),
        lowered(ascii_uppercase(s)) == lowered(s),
        lowered(ascii_lowercase(s)) == lowered(s),
{
    assert(ascii_lowercase(ascii_uppercase(s)) =~= ascii_lowercase(s));
    assert(ascii_lowercase(ascii_lowercase(s)) =~= ascii_lowercase(s));
}

/// `String::push` appends one character.
pub assume_specification[ String::push ](s: &mut String, c: char)
    ensures
        final(s)@ == old(s)@.push(c),
;

/// The decimal digits of a number.
pub open spec fn decimal(n: nat) -> Seq<char>
    decreases n,
{
    if n < 10 {
        seq![(48 + n) as char]
    } else {
        decimal(n / 10).push((48 + n % 10) as char)
    }
}

/// `needle` stands in `hay` at `at`.
pub open spec fn occurs_at(hay: Seq<char>, needle: Seq<char>, at: int) -> bool {
    0 <= at && at + needle.len() <= hay.len() && hay.subrange(at, at + needle.len()) == needle
}

/// `needle` stands somewhere in `hay`.
pub open spec fn occurs_in(hay: Seq<char>, needle: Seq<char>) -> bool {
    exists|at: int| #[trigger] occurs_at(hay, needle, at)
}

/// `s` begins with `prefix`.
pub open spec fn begins_with(s: Seq<char>, prefix: Seq<char>) -> bool {
    occurs_at(s, prefix, 0)
}

/// The part of `s` before the first `sep`; all of `s` where there is none.
pub open spec fn before(s: Seq<char>, sep: char) -> Seq<char>
    decreases s.len(),
{
    if s.len() == 0 || s[0] == sep {
        Seq::<char>::empty()
    } else {
        seq![s[0]] + before(s.skip(1), sep)
    }
}

/// `a` and `b` hold the same characters.
pub fn same_text(a: &str, b: &str) -> (res: bool)
    ensures
        res == (a@ == b@),
{
    let x: String = a.to_owned();
    let y: String = b.to_owned();
    x == y
}

/// A text without characters.
pub fn is_empty(s: &str) -> (res: bool)
    ensures
        res == (s@.len() == 0),
{
    chars_of(s).len() == 0
}

/// The characters of a text.
pub fn chars_of(s: &str) -> (v: Vec<char>)
    ensures
        v@ == s@,
{
    let mut v: Vec<char> = Vec::new();
    for c in it: s.chars()
        invariant
            it.seq() == s@,
            v@ == s@.take(it.index() as int),
    {
        v.push(c);
        assert(s@.take(it.index() as int).push(c) =~= s@.take(it.index() + 1));
    }
    assert(s@.take(s@.len() as int) =~= s@);
    v
}

/// A number in decimal digits.
pub fn decimal_of(n: u64) -> (s: String)
    ensures
        s@ == decimal(n as nat),
    decreases n,
{
    if n < 10 {
        let mut s: String = String::new();
        s.push((48u8 + n as u8) as char);
        assert(s@ =~= decimal(n as nat));
        s
    } else {
        let mut s: String = decimal_of(n / 10);
        s.push((48u8 + (n % 10) as u8) as char);
        s
    }
}

/// `a` followed by `b`.
pub fn concat(a: &str, b: &str) -> (s: String)
    ensures
        s@ == a@ + b@,
{
    let tail: Vec<char> = chars_of(b);
    let mut s: String = a.to_owned();
    let mut i: usize = 0;
    while i < tail.len()
        invariant
            i <= tail.len(),
            s@ =~= a@ + tail@.take(i as int),
        decreases tail.len() - i,
    {
        s.push(tail[i]);
        i = i + 1;
    }
    assert(tail@.take(tail@.len() as int) =~= tail@);
    s
}

/// The text made of the characters `from .. to` of `v`.
pub fn text_of(v: &Vec<char>, from: usize, to: usize) -> (s: String)
    requires
        from <= to <= v.len(),
    ensures
        s@ == v@.subrange(from as int, to as int),
{
    let mut s: String = String::new();
    let mut i: usize = from;
    assert(v@.subrange(from as int, from as int) =~= Seq::<char>::empty());
    while i < to
        invariant
            from <= i <= to <= v.len(),
            s@ == v@.subrange(from as int, i as int),
        decreases to - i,
    {
        s.push(v[i]);
        assert(v@.subrange(from as int, i as int).push(v@[i as int]) =~= v@.subrange(
            from as int,
            i + 1,
        ));
        i = i + 1;
    }
    s
}

/// `needle` stands in `hay` at `at`.
fn stands_at(hay: &Vec<char>, needle: &Vec<char>, at: usize) -> (res: bool)
    requires
        at + needle.len() <= hay.len(),
    ensures
        res == occurs_at(hay@, needle@, at as int),
{
    let mut i: usize = 0;
    while i < needle.len()
        invariant
            i <= needle.len(),
            at + needle.len() <= hay.len(),
            hay@.subrange(at as int, at + i) =~= needle@.take(i as int),
        decreases needle.len() - i,
    {
        if hay[at + i] != needle[i] {
            proof {
                let part = hay@.subrange(at as int, at + needle@.len());
                assert(part[i as int] != needle@[i as int]);
            }
            return false;
        }
        assert(hay@.subrange(at as int, at + i + 1) =~= hay@.subrange(at as int, at + i).push(
            hay@[at + i],
        ));
        assert(needle@.take(i + 1) =~= needle@.take(i as int).push(needle@[i as int]));
        i = i + 1;
    }
    assert(needle@.take(needle@.len() as int) =~= needle@);
    true
}

/// Whether `needle` stands somewhere in `hay`.
pub fn contains(hay: &str, needle: &str) -> (res: bool)
    ensures
        res == occurs_in(hay@, needle@),
{
    let h: Vec<char> = chars_of(hay);
    let n: Vec<char> = chars_of(needle);
    if n.len() > h.len() {
        return false;
    }
    let last: usize = h.len() - n.len();
    let mut at: usize = 0;
    while at <= last
        invariant
            h@ == hay@,
            n@ == needle@,
            last == h.len() - n.len(),
            n.len() <= h.len(),
            at <= last + 1,
            forall|k: int| 0 <= k < at ==> !#[trigger] occurs_at(h@, n@, k),
        decreases last + 1 - at,
    {
        if stands_at(&h, &n, at) {
            return true;
        }
        if at == last {
            return false;
        }
        at = at + 1;
    }
    false
}

/// Whether `s` begins with `prefix`.
pub fn starts_with(s: &str, prefix: &str) -> (res: bool)
    ensures
        res == begins_with(s@, prefix@),
{
    let h: Vec<char> = chars_of(s);
    let n: Vec<char> = chars_of(prefix);
    n.len() <= h.len() && stands_at(&h, &n, 0)
}

/// What follows `prefix` in `s`, if `s` begins with it.
pub fn strip_prefix(s: &str, prefix: &str) -> (res: Option<String>)
    ensures
        res is Some == begins_with(s@, prefix@),
        res matches Some(rest) ==> rest@ == s@.skip(prefix@.len() as int),
{
    let h: Vec<char> = chars_of(s);
    let n: Vec<char> = chars_of(prefix);
    if n.len() <= h.len() && stands_at(&h, &n, 0) {
        assert(h@.subrange(n.len() as int, h.len() as int) =~= s@.skip(prefix@.len() as int));
        Some(text_of(&h, n.len(), h.len()))
    } else {
        None
    }
}

/// The part of `s` before the first `sep`.
pub fn first_segment(s: &str, sep: char) -> (res: String)
    ensures
        res@ == before(s@, sep),
{
    let h: Vec<char> = chars_of(s);
    let mut i: usize = 0;
    assert(h@.skip(0) =~= h@);
    assert(h@.take(0) =~= Seq::<char>::empty());
    while i < h.len() && h[i] != sep
        invariant
            h@ == s@,
            i <= h.len(),
            before(s@, sep) =~= h@.take(i as int) + before(h@.skip(i as int), sep),
        decreases h.len() - i,
    {
        assert(h@.skip(i as int).skip(1) =~= h@.skip(i + 1));
        assert(h@.take(i + 1) =~= h@.take(i as int).push(h@[i as int]));
        i = i + 1;
    }
    assert(h@.take(i as int) =~= h@.subrange(0, i as int));
    text_of(&h, 0, i)
}

/// A text holds each of its parts, and begins with each of its beginnings.
pub proof fn lemma_inside(before: Seq<char>, part: Seq<char>, after: Seq<char>)
    ensures
        occurs_in(before + part + after, part),
        begins_with(part + after, part),
{
    let all = before + part + after;
    assert(all.subrange(before.len() as int, (before.len() + part.len()) as int) =~= part);
    assert(occurs_at(all, part, before.len() as int));
    assert((part + after).subrange(0, part.len() as int) =~= part);
}

/// What a text holds is a part of it, and so is what it begins with.
pub proof fn held_texts_are_parts(hay: Seq<char>, needle: Seq<char>)
    ensures
        occurs_in(hay, needle) ==> exists|at: int|
            0 <= at && at + needle.len() <= hay.len() && #[trigger] hay.take(at) + needle
                + hay.skip(at + needle.len() as int) == hay,
        begins_with(hay, needle) ==> needle + hay.skip(needle.len() as int) == hay,
        occurs_in(hay, needle) && occurs_in(needle, hay) ==> hay == needle,
{
    if occurs_in(hay, needle) {
        let at = choose|at: int| #[trigger] occurs_at(hay, needle, at);
        assert(hay.take(at) + needle + hay.skip(at + needle.len() as int) =~= hay);
        if occurs_in(needle, hay) {
            let back = choose|back: int| #[trigger] occurs_at(needle, hay, back);
            assert(at == 0 && hay.len() == needle.len());
            assert(hay.subrange(0, hay.len() as int) =~= hay);
        }
    }
    if begins_with(hay, needle) {
        assert(needle + hay.skip(needle.len() as int) =~= hay);
    }
}

/// The part before a separator holds none, and the text goes on with the separator
/// after it unless it is all of the text.
pub proof fn separators_end_parts(s: Seq<char>, sep: char)
    ensures
        !before(s, sep).contains(sep),
        begins_with(s, before(s, sep)),
        before(s, sep).len() == s.len() || (before(s, sep).len() < s.len()
            && s[before(s, sep).len() as int] == sep),
        !s.contains(sep) ==> before(s, sep) == s,
    decreases s.len(),
{
    if s.len() > 0 && s[0] != sep {
        let rest = s.skip(1);
        separators_end_parts(rest, sep);
        let b = before(rest, sep);
        let all = before(s, sep);
        assert(all =~= seq![s[0]] + b);
        if all.contains(sep) {
            let i = all.index_of(sep);
            assert(b[i - 1] == sep);
        }
        assert(rest.subrange(0, b.len() as int) == b);
        assert(s.subrange(0, all.len() as int) =~= all) by {
            assert forall|i: int| 0 < i < all.len() implies s[i] == all[i] by {
                assert(b[i - 1] == rest[i - 1]);
            }
        }
        if b.len() < rest.len() {
            assert(rest[b.len() as int] == s[all.len() as int]);
        }
        if !s.contains(sep) {
            if rest.contains(sep) {
                let i = rest.index_of(sep);
                assert(s[i + 1] == sep);
            }
            assert(all =~= s);
        }
    } else if s.len() > 0 {
        assert(s.subrange(0, 0) =~= Seq::<char>::empty());
        assert(s.contains(s[0]));
    } else {
        assert(s.subrange(0, 0) =~= Seq::<char>::empty());
        assert(before(s, sep) =~= s);
    }
}

/// The number that decimal digits stand for.
pub open spec fn number_of(digits: Seq<char>) -> int
    decreases digits.len(),
{
    if digits.len() == 0 {
        0
    } else {
        10 * number_of(digits.drop_last()) + (digits.last() as u32 - 48)
    }
}

/// The decimal digits of a number stand for it, are digits, and do not begin with a
/// zero unless there is just one.
pub proof fn digits_stand_for_the_number(n: nat)
    ensures
        number_of(decimal(n)) == n,
        decimal(n).len() >= 1,
        forall|i: int| 0 <= i < decimal(n).len() ==> 48 <= (#[trigger] decimal(n)[i]) as u32 <= 57,
        n > 0 ==> decimal(n)[0] as u32 > 48,
    decreases n,
{
    if n < 10 {
        let c = (48 + n) as char;
        assert(decimal(n) =~= seq![c]);
        assert(c as u32 == 48 + n);
        assert(decimal(n).drop_last() =~= Seq::<char>::empty());
        assert(number_of(decimal(n).drop_last()) == 0);
        assert(decimal(n).last() == c);
    } else {
        digits_stand_for_the_number(n / 10);
        let c = (48 + n % 10) as char;
        assert(c as u32 == 48 + n % 10);
        assert(decimal(n).drop_last() =~= decimal(n / 10));
        assert(decimal(n).last() == c);
    }
}

} // verus!
