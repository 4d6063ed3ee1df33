//! Small verified operations on text, stated over sequences of characters.

use vstd::prelude::*;

verus! {

/// Whether `pat` occurs in `s` starting at index `at`.
pub open spec fn matches_at(s: Seq<char>, at: int, pat: Seq<char>) -> bool {
    0 <= at && at + pat.len() <= s.len() && s.subrange(at, at + pat.len()) == pat
}

/// Whether `s` begins with `pat`.
pub open spec fn starts_with(s: Seq<char>, pat: Seq<char>) -> bool {
    matches_at(s, 0, pat)
}

/// Whether `pat` occurs somewhere in `s`.
pub open spec fn occurs(s: Seq<char>, pat: Seq<char>) -> bool {
    exists|i: int| matches_at(s, i, pat)
}

/// `s` with every occurrence of `from` replaced by `to`, scanning from the
/// left and never looking again at text that was already replaced. An empty
/// `from` replaces nothing.
pub open spec fn replace_all(s: Seq<char>, from: Seq<char>, to: Seq<char>) -> Seq<char>
    decreases s.len(),
{
    if from.len() == 0 || s.len() < from.len() {
        s
    } else if matches_at(s, 0, from) {
        to + replace_all(s.skip(from.len() as int), from, to)
    } else {
        seq![s[0]] + replace_all(s.skip(1), from, to)
    }
}

/// The characters of `s`, one by one.
pub fn chars_of(s: &str) -> (v: Vec<char>)
    ensures
        v@ == s@,
{
    let mut v: Vec<char> = Vec::new();
    for c in it: s.chars()
        invariant
            it.seq() == s@,
            v@ == it.seq().take(it.index()),
    {
        v.push(c);
    }
    v
}

/// The text `a` followed by `b`.
pub fn concat2(a: &str, b: &str) -> (out: String)
    ensures
        out@ == a@ + b@,
{
    let mut out = a.to_owned();
    out.append(b);
    out
}

/// The text `a` followed by `b` and then by `c`.
pub fn concat3(a: &str, b: &str, c: &str) -> (out: String)
    ensures
        out@ == a@ + b@ + c@,
{
    let mut out = a.to_owned();
    out.append(b);
    out.append(c);
    out
}

/// Whether two texts hold the same characters.
pub fn text_eq(a: &str, b: &str) -> (r: bool)
    ensures
        r == (a@ == b@),
{
    let x = a.to_owned();
    let y = b.to_owned();
    x == y
}

/// Whether `pat` occurs in `s` at index `at`.
pub fn has_match_at(s: &Vec<char>, at: usize, pat: &Vec<char>) -> (b: bool)
    ensures
        b == matches_at(s@, at as int, pat@),
{
    if at > s.len() || pat.len() > s.len() - at {
        return false;
    }
    let mut i: usize = 0;
    while i < pat.len()
        invariant
            i <= pat.len(),
            at + pat.len() <= s.len(),
            forall|j: int| 0 <= j < i ==> s@[at + j] == pat@[j],
        decreases pat.len() - i,
    {
        if s[at + i] != pat[i] {
            assert(s@.subrange(at as int, at + pat.len())[i as int] == s@[at + i]);
            return false;
        }
        i = i + 1;
    }
    assert(s@.subrange(at as int, at + pat.len()) =~= pat@);
    true
}

/// Whether `pat` occurs somewhere in `s`.
pub fn contains_text(s: &str, pat: &str) -> (b: bool)
    ensures
        b == occurs(s@, pat@),
{
    let chars = chars_of(s);
    let wanted = chars_of(pat);
    let n = chars.len();
    let mut i: usize = 0;
    while i < n
        invariant
            i <= n,
            n == chars@.len(),
            chars@ == s@,
            wanted@ == pat@,
            forall|j: int| 0 <= j < i ==> !matches_at(s@, j, pat@),
        decreases n - i,
    {
        if has_match_at(&chars, i, &wanted) {
            return true;
        }
        i = i + 1;
    }
    has_match_at(&chars, n, &wanted)
}

/// The first index at or after `from` at which `c` stands, or the length of
/// `s` where it stands nowhere from there on.
pub fn find_char(s: &Vec<char>, c: char, from: usize) -> (r: usize)
    requires
        from <= s.len(),
    ensures
        from <= r <= s.len(),
        forall|j: int| from <= j < r ==> s@[j] != c,
        r < s.len() ==> s@[r as int] == c,
{
    let mut i: usize = from;
    while i < s.len()
        invariant
            from <= i <= s.len(),
            forall|j: int| from <= j < i ==> s@[j] != c,
        decreases s.len() - i,
    {
        if s[i] == c {
            return i;
        }
        i = i + 1;
    }
    i
}

/// Whether `c` occurs in `s`.
pub fn contains_char(s: &str, c: char) -> (b: bool)
    ensures
        b == s@.contains(c),
{
    let chars = chars_of(s);
    let at = find_char(&chars, c, 0);
    at < chars.len()
}

/// `s` with every occurrence of the non-empty `from` replaced by `to`.
pub fn replace(s: &str, from: &str, to: &str) -> (out: String)
    ensures
        out@ == replace_all(s@, from@, to@),
{
    let chars = chars_of(s);
    let pat = chars_of(from);
    let n = chars.len();
    let mut out = String::new();
    if pat.len() == 0 {
        out.append(s);
        return out;
    }
    let mut i: usize = 0;
    let mut copied: usize = 0;
    assert(s@.skip(0) =~= s@);
    assert(out@ + s@.subrange(0, 0) =~= Seq::<char>::empty());
    while i < n && pat.len() <= n - i
        invariant
            chars@ == s@,
            pat@ == from@,
            pat.len() > 0,
            n == chars.len(),
            copied <= i <= n,
            out@ + s@.subrange(copied as int, i as int) + replace_all(
                s@.skip(i as int),
                from@,
                to@,
            ) == replace_all(s@, from@, to@),
        decreases n - i,
    {
        let ghost rest = s@.skip(i as int);
        let ghost done = out@ + s@.subrange(copied as int, i as int);
        assert(rest.subrange(0, pat.len() as int) =~= s@.subrange(i as int, i + pat.len()));
        if has_match_at(&chars, i, &pat) {
            assert(rest.skip(pat.len() as int) =~= s@.skip(i + pat.len()));
            out.append(s.substring_char(copied, i));
            out.append(to);
            i = i + pat.len();
            copied = i;
            assert(out@ + s@.subrange(copied as int, i as int) =~= done + to@);
            assert(done + to@ + replace_all(s@.skip(i as int), from@, to@) =~= done + (to@
                + replace_all(rest.skip(pat.len() as int), from@, to@)));
        } else {
            assert(rest.skip(1) =~= s@.skip(i + 1));
            i = i + 1;
            assert(out@ + s@.subrange(copied as int, i as int) =~= done + seq![rest[0]]);
            assert(done + seq![rest[0]] + replace_all(s@.skip(i as int), from@, to@) =~= done + (
            seq![rest[0]] + replace_all(rest.skip(1), from@, to@)));
        }
    }
    assert(replace_all(s@.skip(i as int), from@, to@) == s@.skip(i as int));
    assert(s@.subrange(copied as int, i as int) + s@.skip(i as int) =~= s@.subrange(
        copied as int,
        n as int,
    ));
    let ghost before = out@;
    out.append(s.substring_char(copied, n));
    assert(out@ =~= before + s@.subrange(copied as int, i as int) + s@.skip(i as int));
    out
}

/// The character that stands for a digit below ten.
pub open spec fn digit_char(d: nat) -> char {
    if d == 0 {
        '0'
    } else if d == 1 {
        '1'
    } else if d == 2 {
        '2'
    } else if d == 3 {
        '3'
    } else if d == 4 {
        '4'
    } else if d == 5 {
        '5'
    } else if d == 6 {
        '6'
    } else if d == 7 {
        '7'
    } else if d == 8 {
        '8'
    } else {
        '9'
    }
}

/// The decimal numeral of `n`, without leading zeros.
pub open spec fn decimal(n: nat) -> Seq<char>
    decreases n,
{
    if n < 10 {
        seq![digit_char(n)]
    } else {
        decimal(n / 10) + seq![digit_char(n % 10)]
    }
}

fn digit_text(d: u64) -> (s: &'static str)
    requires
        d < 10,
    ensures
        s@ == seq![digit_char(d as nat)],
{
    proof {
        reveal_strlit("0");
        reveal_strlit("1");
        reveal_strlit("2");
        reveal_strlit("3");
        reveal_strlit("4");
        reveal_strlit("5");
        reveal_strlit("6");
        reveal_strlit("7");
        reveal_strlit("8");
        reveal_strlit("9");
    }
    let s = if d == 0 {
        "0"
    } else if d == 1 {
        "1"
    } else if d == 2 {
        "2"
    } else if d == 3 {
        "3"
    } else if d == 4 {
        "4"
    } else if d == 5 {
        "5"
    } else if d == 6 {
        "6"
    } else if d == 7 {
        "7"
    } else if d == 8 {
        "8"
    } else {
        "9"
    };
    assert(s@ =~= seq![digit_char(d as nat)]);
    s
}

/// The decimal numeral of `n`.
pub fn decimal_text(n: u64) -> (out: String)
    ensures
        out@ == decimal(n as nat),
    decreases n,
{
    if n < 10 {
        digit_text(n).to_owned()
    } else {
        let mut out = decimal_text(n / 10);
        out.append(digit_text(n % 10));
        out
    }
}

} // verus!
