//! Strings as sequences of characters: comparing, searching, splitting.
use vstd::prelude::*;
use vstd::string::*;

verus! {

/// The pieces of `s` between the occurrences of `sep`. There is always at least one piece: a
/// separator starts a new one and every other character goes to the last one.
pub open spec fn pieces(s: Seq<char>, sep: char) -> Seq<Seq<char>>
    decreases s.len(),
{
    if s.len() == 0 {
        seq![Seq::<char>::empty()]
    } else {
        let front = pieces(s.drop_last(), sep);
        if s.last() == sep {
            front.push(Seq::<char>::empty())
        } else {
            front.drop_last().push(front.last().push(s.last()))
        }
    }
}

/// The views of a vector of strings.
pub open spec fn views(v: Seq<String>) -> Seq<Seq<char>> {
    v.map_values(|x: String| x@)
}

/// The text that `{:?}` writes for a string.
pub uninterp spec fn quoted(s: Seq<char>) -> Seq<char>;

/// `format!` of a string with `{:?}`, the `Debug` form of `str`: the string in quotation marks,
/// with escapes. Which characters are escaped, and how, is left unsaid.
#[verifier::external_body]
pub(crate) fn quote(s: &str) -> (r: String)
    ensures
        r@ == quoted(s@),
{
    format!("{:?}", s)
}

/// There is at least one piece.
pub proof fn lemma_pieces_nonempty(s: Seq<char>, sep: char)
    ensures
        pieces(s, sep).len() >= 1,
    decreases s.len(),
{
    if s.len() > 0 {
        lemma_pieces_nonempty(s.drop_last(), sep);
    }
}

/// Strings with the same pieces are the same.
pub proof fn lemma_pieces_injective(s: Seq<char>, t: Seq<char>, sep: char)
    requires
        pieces(s, sep) == pieces(t, sep),
    ensures
        s == t,
    decreases s.len(),
{
    let p = pieces(s, sep);
    if s.len() == 0 || t.len() == 0 {
        lemma_pieces_of_empty(s, sep);
        lemma_pieces_of_empty(t, sep);
        assert(s =~= t);
    } else {
        let front = pieces(s.drop_last(), sep);
        lemma_pieces_nonempty(s.drop_last(), sep);
        let other = pieces(t.drop_last(), sep);
        lemma_pieces_nonempty(t.drop_last(), sep);
        if s.last() == sep {
            assert(p.last().len() == 0);
            assert(p.drop_last() =~= front);
            assert(t.last() == sep);
            assert(p.drop_last() =~= other);
        } else {
            assert(p.last().len() > 0);
            assert(t.last() != sep);
            assert(p.last() == front.last().push(s.last()));
            assert(p.last() == other.last().push(t.last()));
            assert(s.last() == p.last().last());
            assert(t.last() == p.last().last());
            assert(front.last() =~= p.last().drop_last());
            assert(other.last() =~= p.last().drop_last());
            assert(p.drop_last() =~= front.drop_last());
            assert(p.drop_last() =~= other.drop_last());
            assert(front =~= front.drop_last().push(front.last()));
            assert(other =~= other.drop_last().push(other.last()));
        }
        lemma_pieces_injective(s.drop_last(), t.drop_last(), sep);
        assert(s =~= s.drop_last().push(s.last()));
        assert(t =~= t.drop_last().push(t.last()));
    }
}

/// Only the empty string has one empty piece.
proof fn lemma_pieces_of_empty(s: Seq<char>, sep: char)
    ensures
        pieces(s, sep) == seq![Seq::<char>::empty()] <==> s.len() == 0,
{
    let p = pieces(s, sep);
    if s.len() > 0 {
        let front = pieces(s.drop_last(), sep);
        lemma_pieces_nonempty(s.drop_last(), sep);
        if s.last() == sep {
            assert(p.len() >= 2);
        } else {
            assert(p.last().len() > 0);
        }
    }
}

/// No piece holds the separator.
pub proof fn lemma_pieces_without_sep(s: Seq<char>, sep: char, i: int)
    requires
        0 <= i < pieces(s, sep).len(),
    ensures
        !pieces(s, sep)[i].contains(sep),
    decreases s.len(),
{
    if s.len() > 0 {
        let front = pieces(s.drop_last(), sep);
        lemma_pieces_nonempty(s.drop_last(), sep);
        if i < front.len() {
            lemma_pieces_without_sep(s.drop_last(), sep, i);
        }
        lemma_pieces_without_sep(s.drop_last(), sep, front.len() - 1);
    }
}

/// The characters of a string, one by one.
pub fn chars_of(s: &str) -> (r: Vec<char>)
    ensures
        r@ == s@,
{
    let mut v: Vec<char> = Vec::new();
    for c in it: s.chars()
        invariant
            v@ == it.seq().take(it.index()),
            it.seq() == s@,
    {
        proof {
            assert(it.seq().take(it.index() + 1) =~= it.seq().take(it.index()).push(c));
        }
        v.push(c);
    }
    assert(s@.take(s@.len() as int) =~= s@);
    v
}

/// `true` iff the two strings hold the same characters.
pub fn same_text(a: &str, b: &str) -> (r: bool)
    ensures
        r == (a@ == b@),
{
    let a_owned: String = a.to_owned();
    let b_owned: String = b.to_owned();
    a_owned == b_owned
}

/// `true` iff `c` occurs in `s`.
pub fn has_char(s: &str, c: char) -> (r: bool)
    ensures
        r == s@.contains(c),
{
    let chars = chars_of(s);
    let mut i: usize = 0;
    while i < chars.len()
        invariant
            i <= chars@.len(),
            chars@ == s@,
            forall|j: int| 0 <= j < i ==> chars@[j] != c,
        decreases chars@.len() - i,
    {
        if chars[i] == c {
            return true;
        }
        i = i + 1;
    }
    false
}

/// Splits a string at every occurrence of `sep`.
pub fn split(s: &str, sep: char) -> (r: Vec<String>)
    ensures
        views(r@) == pieces(s@, sep),
        r@.len() >= 1,
{
    let chars = chars_of(s);
    let mut done: Vec<String> = Vec::new();
    let mut start: usize = 0;
    let mut i: usize = 0;
    assert(s@.take(0) =~= Seq::<char>::empty());
    assert(views(done@).push(s@.subrange(0, 0)) =~= pieces(s@.take(0), sep));
    while i < chars.len()
        invariant
            start <= i <= chars@.len(),
            chars@ == s@,
            views(done@).push(s@.subrange(start as int, i as int)) == pieces(s@.take(i as int), sep),
        decreases chars@.len() - i,
    {
        let ghost old_done = done@;
        proof {
            assert(s@.take(i + 1).drop_last() =~= s@.take(i as int));
            assert(s@.take(i + 1).last() == s@[i as int]);
            let front = pieces(s@.take(i as int), sep);
            assert(front.drop_last() =~= views(done@));
            assert(front.last() == s@.subrange(start as int, i as int));
        }
        if chars[i] == sep {
            done.push(s.substring_char(start, i).to_owned());
            start = i + 1;
            assert(views(done@) =~= views(old_done).push(done@.last()@));
            assert(s@.subrange(i + 1, i + 1) =~= Seq::<char>::empty());
        } else {
            assert(s@.subrange(start as int, i + 1) =~= s@.subrange(start as int, i as int).push(
                s@[i as int],
            ));
        }
        i = i + 1;
    }
    let ghost old_done = done@;
    done.push(s.substring_char(start, i).to_owned());
    assert(views(done@) =~= views(old_done).push(done@.last()@));
    assert(s@.take(i as int) =~= s@);
    done
}

/// `true` iff `s` begins with `prefix`.
pub open spec fn begins_with(s: Seq<char>, prefix: Seq<char>) -> bool {
    prefix.len() <= s.len() && s.take(prefix.len() as int) == prefix
}

/// What stands before and after the first occurrence of `sep` in `s`.
pub open spec fn split_once(s: Seq<char>, sep: Seq<char>) -> Option<(Seq<char>, Seq<char>)>
    decreases s.len(),
{
    if begins_with(s, sep) {
        Some((Seq::empty(), s.skip(sep.len() as int)))
    } else if s.len() == 0 {
        None
    } else {
        match split_once(s.drop_first(), sep) {
            None => None,
            Some((before, after)) => Some((seq![s[0]] + before, after)),
        }
    }
}

/// `true` iff the characters of `s` from `at` on begin with `prefix`.
fn begins_at(s: &Vec<char>, at: usize, prefix: &Vec<char>) -> (r: bool)
    requires
        at <= s@.len(),
    ensures
        r == begins_with(s@.skip(at as int), prefix@),
{
    if s.len() - at < prefix.len() {
        return false;
    }
    let mut i: usize = 0;
    while i < prefix.len()
        invariant
            i <= prefix@.len(),
            at + prefix@.len() <= s.len(),
            forall|j: int| 0 <= j < i ==> s@[at + j] == prefix@[j],
        decreases prefix@.len() - i,
    {
        if s[at + i] != prefix[i] {
            assert(s@.skip(at as int).take(prefix@.len() as int)[i as int] != prefix@[i as int]);
            return false;
        }
        i = i + 1;
    }
    assert(s@.skip(at as int).take(prefix@.len() as int) =~= prefix@);
    true
}

/// `true` iff `s` begins with `prefix`.
pub fn has_prefix(s: &str, prefix: &str) -> (r: bool)
    ensures
        r == begins_with(s@, prefix@),
{
    let chars = chars_of(s);
    assert(chars@.skip(0) =~= chars@);
    begins_at(&chars, 0, &chars_of(prefix))
}

/// Splits a string at the first occurrence of `sep`.
pub fn split_at_first(s: &str, sep: &str) -> (r: Option<(String, String)>)
    ensures
        split_once(s@, sep@) == (match r {
            Some((a, b)) => Some((a@, b@)),
            None => None,
        }),
{
    let chars = chars_of(s);
    let sep_chars = chars_of(sep);
    let mut i: usize = 0;
    assert(s@.skip(0) =~= s@);
    loop
        invariant
            i <= chars@.len(),
            chars@ == s@,
            sep_chars@ == sep@,
            split_once(s@, sep@) == (match split_once(s@.skip(i as int), sep@) {
                Some((before, after)) => Some((s@.take(i as int) + before, after)),
                None => None,
            }),
        decreases chars@.len() - i,
    {
        let ghost left = s@.skip(i as int);
        if begins_at(&chars, i, &sep_chars) {
            assert(left.len() == chars.len() - i);
            let before = s.substring_char(0, i).to_owned();
            let after = s.substring_char(i + sep_chars.len(), chars.len()).to_owned();
            proof {
                assert(s@.take(i as int) + Seq::<char>::empty() =~= before@);
                assert(left.skip(sep@.len() as int) =~= after@);
            }
            return Some((before, after));
        }
        if i == chars.len() {
            assert(left =~= Seq::<char>::empty());
            return None;
        }
        proof {
            assert(left.drop_first() =~= s@.skip(i + 1));
            match split_once(s@.skip(i + 1), sep@) {
                Some((before, after)) => {
                    assert(s@.take(i as int) + (seq![left[0]] + before) =~= s@.take(i + 1)
                        + before);
                },
                None => {},
            }
        }
        i = i + 1;
    }
}

/// `true` iff Unicode calls the character white space.
pub open spec fn is_white(c: char) -> bool {
    let n = c as u32;
    ||| 9 <= n <= 13
    ||| n == 0x20
    ||| n == 0x85
    ||| n == 0xA0
    ||| n == 0x1680
    ||| 0x2000 <= n <= 0x200A
    ||| n == 0x2028
    ||| n == 0x2029
    ||| n == 0x202F
    ||| n == 0x205F
    ||| n == 0x3000
}

fn white(c: char) -> (r: bool)
    ensures
        r == is_white(c),
{
    let n: u32 = c as u32;
    (9 <= n && n <= 13) || n == 0x20 || n == 0x85 || n == 0xA0 || n == 0x1680 || (0x2000 <= n && n
        <= 0x200A) || n == 0x2028 || n == 0x2029 || n == 0x202F || n == 0x205F || n == 0x3000
}

/// A string without the white space that it begins with.
pub open spec fn trimmed_start(s: Seq<char>) -> Seq<char>
    decreases s.len(),
{
    if s.len() > 0 && is_white(s[0]) {
        trimmed_start(s.drop_first())
    } else {
        s
    }
}

/// A string without the white space that it ends with.
pub open spec fn trimmed_end(s: Seq<char>) -> Seq<char>
    decreases s.len(),
{
    if s.len() > 0 && is_white(s.last()) {
        trimmed_end(s.drop_last())
    } else {
        s
    }
}

/// A string without the white space around it.
pub open spec fn trimmed(s: Seq<char>) -> Seq<char> {
    trimmed_end(trimmed_start(s))
}

/// Takes the white space around a string away.
pub fn trim(s: &str) -> (r: String)
    ensures
        r@ == trimmed(s@),
{
    let chars = chars_of(s);
    let mut from: usize = 0;
    assert(chars@.skip(0) =~= chars@);
    while from < chars.len() && white(chars[from])
        invariant
            from <= chars@.len(),
            trimmed_start(s@) == trimmed_start(chars@.skip(from as int)),
        decreases chars@.len() - from,
    {
        assert(chars@.skip(from as int).drop_first() =~= chars@.skip(from + 1));
        from = from + 1;
    }
    let mut to: usize = chars.len();
    let ghost start = chars@.skip(from as int);
    assert(chars@.subrange(from as int, to as int) =~= start);
    while from < to && white(chars[to - 1])
        invariant
            from <= to <= chars@.len(),
            trimmed_end(start) == trimmed_end(chars@.subrange(from as int, to as int)),
        decreases to - from,
    {
        assert(chars@.subrange(from as int, to as int).drop_last() =~= chars@.subrange(
            from as int,
            to - 1,
        ));
        to = to - 1;
    }
    s.substring_char(from, to).to_owned()
}

/// The number that decimal digits stand for; `None` where there is none, or another character.
pub open spec fn digits_value(s: Seq<char>) -> Option<nat>
    decreases s.len(),
{
    if s.len() == 0 || !('0' <= s.last() <= '9') {
        None
    } else if s.len() == 1 {
        Some((s[0] as u32 - 48) as nat)
    } else {
        match digits_value(s.drop_last()) {
            Some(n) => Some(10 * n + (s.last() as u32 - 48) as nat),
            None => None,
        }
    }
}

/// The number that a text stands for: decimal digits, after a plus sign or not, that fit in a
/// `usize`.
pub open spec fn usize_of(s: Seq<char>) -> Option<usize> {
    let digits = if s.len() > 0 && s[0] == '+' {
        s.drop_first()
    } else {
        s
    };
    match digits_value(digits) {
        Some(n) => if n <= usize::MAX {
            Some(n as usize)
        } else {
            None
        },
        None => None,
    }
}

/// What comes of reading digits: a number that only grows, or no number at all.
proof fn lemma_digits_prefix(s: Seq<char>, i: int)
    requires
        1 <= i <= s.len(),
    ensures
        digits_value(s.take(i)) is None ==> digits_value(s) is None,
        digits_value(s) is Some ==> digits_value(s)->0 >= digits_value(s.take(i))->0,
    decreases s.len(),
{
    if i < s.len() {
        lemma_digits_prefix(s.drop_last(), i);
        assert(s.drop_last().take(i) =~= s.take(i));
    } else {
        assert(s.take(i) =~= s);
    }
}

/// Reads a number.
pub fn parse_usize(s: &str) -> (r: Option<usize>)
    ensures
        r == usize_of(s@),
{
    let chars = chars_of(s);
    let from: usize = if chars.len() > 0 && chars[0] == '+' {
        1
    } else {
        0
    };
    let ghost digits = s@.skip(from as int);
    assert(s@.skip(0) =~= s@);
    if from == chars.len() {
        return None;
    }
    let mut n: usize = 0;
    let mut i: usize = from;
    while i < chars.len()
        invariant
            from <= i <= chars@.len(),
            from < chars@.len(),
            from <= 1,
            chars@ == s@,
            digits == s@.skip(from as int),
            usize_of(s@) == (match digits_value(digits) {
                Some(v) => if v <= usize::MAX {
                    Some(v as usize)
                } else {
                    None
                },
                None => None,
            }),
            i == from ==> n == 0,
            i > from ==> digits_value(digits.take(i - from)) == Some(n as nat),
        decreases chars@.len() - i,
    {
        let c: char = chars[i];
        let ghost read = digits.take(i + 1 - from);
        proof {
            lemma_digits_prefix(digits, i + 1 - from);
            assert(read.last() == c);
            assert(read.drop_last() =~= digits.take(i - from));
        }
        if c < '0' || c > '9' {
            return None;
        }
        let d: usize = (c as u32 - 48) as usize;
        if n > usize::MAX / 10 {
            return None;
        }
        let tens: usize = n * 10;
        if tens > usize::MAX - d {
            return None;
        }
        n = tens + d;
        i = i + 1;
    }
    assert(digits.take(i - from) =~= digits);
    Some(n)
}

} // verus!
