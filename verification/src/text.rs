//! Character-level helpers on which the request parser and the response
//! renderer are built.

use vstd::prelude::*;
use vstd::std_specs::iter::IteratorSpec;
use vstd::string::*;

verus! {

/// The characters of a string slice, in order.
pub fn chars_of(s: &str) -> (v: Vec<char>)
    ensures
        v@ == s@,
{
    broadcast use vstd::string::group_string_axioms;

    let mut rest = s.chars();
    let mut v: Vec<char> = Vec::new();
    let mut done: bool = false;
    while !done
        invariant
            v@ + rest.remaining() == s@,
            done ==> rest.remaining().len() == 0,
            rest.decrease() is Some,
        decreases (if done { 0int } else { 1int }), rest.decrease()->0,
    {
        match rest.next() {
            Some(c) => {
                v.push(c);
                assert(v@ + rest.remaining() =~= s@);
            },
            None => {
                done = true;
            },
        }
    }
    assert(v@ =~= s@);
    v
}

/// Whether two string slices hold the same characters.
pub fn same(a: &str, b: &str) -> (r: bool)
    ensures
        r == (a@ == b@),
{
    let ac: Vec<char> = chars_of(a);
    let bc: Vec<char> = chars_of(b);
    let n: usize = ac.len();
    if bc.len() != n {
        return false;
    }
    let mut i: usize = 0;
    while i < n
        invariant
            ac@ == a@,
            bc@ == b@,
            n == ac@.len(),
            n == bc@.len(),
            i <= n,
            forall|j: int| 0 <= j < i ==> ac@[j] == bc@[j],
        decreases n - i,
    {
        if ac[i] != bc[i] {
            return false;
        }
        i += 1;
    }
    assert(a@ =~= b@);
    true
}

/// `pat` occurs in `s` at position `i`.
pub open spec fn occurs_at(s: Seq<char>, pat: Seq<char>, i: int) -> bool {
    0 <= i && i + pat.len() <= s.len() && s.subrange(i, i + pat.len()) == pat
}

/// `i` is the leftmost position at which `pat` occurs in `s`.
pub open spec fn first_at(s: Seq<char>, pat: Seq<char>, i: int) -> bool {
    occurs_at(s, pat, i) && forall|j: int| 0 <= j < i ==> !occurs_at(s, pat, j)
}

/// The leftmost position at which `pat` occurs in `s`, if it occurs at all.
pub open spec fn find(s: Seq<char>, pat: Seq<char>) -> Option<int> {
    if exists|i: int| first_at(s, pat, i) {
        Some(choose|i: int| first_at(s, pat, i))
    } else {
        None
    }
}

/// A leftmost occurrence is the one that `find` reports.
pub proof fn lemma_find_some(s: Seq<char>, pat: Seq<char>, i: int)
    requires
        first_at(s, pat, i),
    ensures
        find(s, pat) == Some(i),
{
    let k = choose|k: int| first_at(s, pat, k);
    assert(first_at(s, pat, k));
    if k < i {
        assert(!occurs_at(s, pat, k));
    } else if i < k {
        assert(!occurs_at(s, pat, i));
    }
}

/// Where `pat` occurs nowhere, `find` reports nothing.
pub proof fn lemma_find_none(s: Seq<char>, pat: Seq<char>)
    requires
        forall|j: int| 0 <= j ==> !occurs_at(s, pat, j),
    ensures
        find(s, pat) is None,
{
    if exists|i: int| first_at(s, pat, i) {
        let k = choose|k: int| first_at(s, pat, k);
        assert(occurs_at(s, pat, k));
    }
}

/// Whether `pat` occurs in `s` at position `i`.
pub fn occurs_at_exec(s: &Vec<char>, pat: &Vec<char>, i: usize) -> (b: bool)
    ensures
        b == occurs_at(s@, pat@, i as int),
{
    let n: usize = s.len();
    let m: usize = pat.len();
    if m > n || i > n - m {
        return false;
    }
    let mut k: usize = 0;
    while k < m
        invariant
            n == s@.len(),
            m == pat@.len(),
            i + m <= n,
            k <= m,
            forall|t: int| 0 <= t < k ==> s@[i + t] == pat@[t],
        decreases m - k,
    {
        if s[i + k] != pat[k] {
            proof {
                let sub = s@.subrange(i as int, i + m);
                assert(sub[k as int] == s@[i + k]);
            }
            return false;
        }
        k += 1;
    }
    assert(s@.subrange(i as int, i + m) =~= pat@);
    true
}

/// The leftmost occurrence of `pat` in the part of `s` that starts at `from`,
/// as a position in `s`. Past the end of `s` nothing occurs.
pub fn find_from(s: &Vec<char>, pat: &Vec<char>, from: usize) -> (r: Option<usize>)
    ensures
        from > s@.len() ==> r is None,
        from <= s@.len() ==> match find(s@.subrange(from as int, s@.len() as int), pat@) {
            Some(i) => r == Some((from + i) as usize) && from + i + pat@.len() <= s@.len(),
            None => r is None,
        },
{
    let n: usize = s.len();
    if from > n {
        return None;
    }
    let ghost rest = s@.subrange(from as int, n as int);
    let mut i: usize = from;
    while i < n
        invariant
            n == s@.len(),
            from <= i <= n,
            rest == s@.subrange(from as int, n as int),
            forall|j: int| 0 <= j < i - from ==> !occurs_at(rest, pat@, j),
        decreases n - i,
    {
        let hit: bool = occurs_at_exec(s, pat, i);
        proof {
            lemma_occurs_shift(s@, pat@, from as int, i - from);
        }
        if hit {
            proof {
                lemma_find_some(rest, pat@, i - from);
            }
            return Some(i);
        }
        i += 1;
    }
    let at_end: bool = occurs_at_exec(s, pat, n);
    proof {
        lemma_occurs_shift(s@, pat@, from as int, n - from);
    }
    if at_end {
        proof {
            lemma_find_some(rest, pat@, n - from);
        }
        return Some(n);
    }
    proof {
        assert forall|j: int| 0 <= j implies !occurs_at(rest, pat@, j) by {
            if j > n - from {
                assert(j + pat@.len() > rest.len());
            }
        }
        lemma_find_none(rest, pat@);
    }
    None
}

/// An occurrence in a suffix of `s` is an occurrence in `s`, shifted.
pub proof fn lemma_occurs_shift(s: Seq<char>, pat: Seq<char>, from: int, j: int)
    requires
        0 <= from <= s.len(),
        0 <= j,
    ensures
        occurs_at(s.subrange(from, s.len() as int), pat, j) == occurs_at(s, pat, from + j),
{
    let rest = s.subrange(from, s.len() as int);
    if j + pat.len() <= rest.len() {
        assert(rest.subrange(j, j + pat.len()) =~= s.subrange(from + j, from + j + pat.len()));
    }
}

/// The pieces of `s` between the occurrences of `pat`, taken from the left
/// and without overlap. There is always at least one piece; an empty `pat`
/// parts nothing, and `s` is the one piece.
pub open spec fn split(s: Seq<char>, pat: Seq<char>) -> Seq<Seq<char>>
    decreases s.len(),
{
    match find(s, pat) {
        Some(i) => if pat.len() > 0 && 0 <= i && i + pat.len() <= s.len() {
            seq![s.subrange(0, i)] + split(s.subrange(i + pat.len(), s.len() as int), pat)
        } else {
            seq![s]
        },
        None => seq![s],
    }
}

/// There is always a piece, and where `pat` occurs there are at least two.
pub proof fn lemma_split_len(s: Seq<char>, pat: Seq<char>)
    requires
        pat.len() > 0,
    ensures
        split(s, pat).len() >= 1,
        find(s, pat) is Some ==> split(s, pat).len() >= 2,
    decreases s.len(),
{
    match find(s, pat) {
        Some(i) => {
            let k = choose|k: int| first_at(s, pat, k);
            assert(first_at(s, pat, k));
            lemma_split_len(s.subrange(i + pat.len(), s.len() as int), pat);
        },
        None => {},
    }
}

/// The pieces of `s` between the occurrences of `pat`, without the last
/// piece where that one is empty. An empty `s` has no pieces.
pub open spec fn split_terminator(s: Seq<char>, pat: Seq<char>) -> Seq<Seq<char>> {
    let pieces = split(s, pat);
    if pieces.len() > 0 && pieces.last().len() == 0 {
        pieces.drop_last()
    } else {
        pieces
    }
}

/// The views of a sequence of string slices.
pub open spec fn views(v: Seq<&str>) -> Seq<Seq<char>> {
    Seq::new(v.len(), |i: int| v[i]@)
}

/// Splits `s` at every occurrence of `pat`.
pub fn split_exec<'a>(s: &'a str, pat: &str) -> (out: Vec<&'a str>)
    ensures
        views(out@) == split(s@, pat@),
        out@.len() > 0,
{
    let sc: Vec<char> = chars_of(s);
    let pc: Vec<char> = chars_of(pat);
    let n: usize = sc.len();
    let m: usize = pc.len();
    let mut out: Vec<&'a str> = Vec::new();
    if m == 0 {
        out.push(s);
        assert(views(out@) =~= seq![s@]);
        return out;
    }
    let mut start: usize = 0;
    let mut done: bool = false;
    assert(s@.subrange(0, n as int) =~= s@);
    assert(views(out@) =~= Seq::<Seq<char>>::empty());
    while !done
        invariant
            sc@ == s@,
            pc@ == pat@,
            n == s@.len(),
            m == pat@.len(),
            m > 0,
            start <= n,
            done ==> views(out@) == split(s@, pat@) && out@.len() > 0,
            !done ==> split(s@, pat@) == views(out@) + split(
                s@.subrange(start as int, n as int),
                pat@,
            ),
        decreases (if done { 0int } else { n - start + 1 }),
    {
        let ghost rest = s@.subrange(start as int, n as int);
        let ghost before = views(out@);
        match find_from(&sc, &pc, start) {
            Some(i) => {
                let piece: &'a str = s.substring_char(start, i);
                out.push(piece);
                proof {
                    let k = i - start;
                    assert(find(rest, pat@) == Some(k));
                    assert(rest.subrange(0, k) =~= s@.subrange(start as int, i as int));
                    assert(rest.subrange(k + m, rest.len() as int) =~= s@.subrange(
                        i + m,
                        n as int,
                    ));
                    assert(views(out@) =~= before + seq![piece@]);
                    assert(before + (seq![piece@] + split(s@.subrange(i + m, n as int), pat@))
                        =~= (before + seq![piece@]) + split(s@.subrange(i + m, n as int), pat@));
                }
                start = i + m;
            },
            None => {
                let piece: &'a str = s.substring_char(start, n);
                out.push(piece);
                proof {
                    assert(views(out@) =~= before + seq![piece@]);
                }
                done = true;
            },
        }
    }
    out
}

/// Splits `s` at every occurrence of `pat`; a last piece that is empty is
/// left out.
pub fn split_terminator_exec<'a>(s: &'a str, pat: &str) -> (out: Vec<&'a str>)
    ensures
        views(out@) == split_terminator(s@, pat@),
{
    let mut out: Vec<&'a str> = split_exec(s, pat);
    let last: usize = out.len() - 1;
    proof {
        assert(views(out@).last() == out@[last as int]@);
    }
    if out[last].unicode_len() == 0 {
        let ghost full = views(out@);
        out.pop();
        assert(views(out@) =~= full.drop_last());
    }
    out
}

/// Whether `pat` occurs in `s`.
pub fn contains_exec(s: &str, pat: &str) -> (b: bool)
    ensures
        b == find(s@, pat@) is Some,
{
    let sc: Vec<char> = chars_of(s);
    let pc: Vec<char> = chars_of(pat);
    assert(s@.subrange(0, s@.len() as int) =~= s@);
    find_from(&sc, &pc, 0).is_some()
}

/// The pieces put together again, with `sep` between each two.
pub open spec fn join(parts: Seq<Seq<char>>, sep: Seq<char>) -> Seq<char>
    decreases parts.len(),
{
    if parts.len() == 0 {
        Seq::empty()
    } else if parts.len() == 1 {
        parts[0]
    } else {
        join(parts.drop_last(), sep) + sep + parts.last()
    }
}

/// Joins the pieces from position `from` on, with `sep` between each two.
pub fn join_exec(parts: &Vec<&str>, from: usize, sep: &str) -> (out: String)
    requires
        from <= parts@.len(),
    ensures
        out@ == join(views(parts@).subrange(from as int, parts@.len() as int), sep@),
{
    let n: usize = parts.len();
    let ghost all = views(parts@);
    let mut out: String = String::new();
    let mut i: usize = from;
    assert(all.subrange(from as int, from as int) =~= Seq::<Seq<char>>::empty());
    while i < n
        invariant
            n == parts@.len(),
            all == views(parts@),
            from <= i <= n,
            out@ == join(all.subrange(from as int, i as int), sep@),
        decreases n - i,
    {
        let ghost before = all.subrange(from as int, i as int);
        let ghost after = all.subrange(from as int, i + 1);
        proof {
            assert(after.drop_last() =~= before);
            assert(after.last() == parts@[i as int]@);
        }
        if i > from {
            out.append(sep);
        }
        out.append(parts[i]);
        i += 1;
    }
    out
}

/// `s` with every occurrence of `pat` replaced by `to`, the occurrences taken
/// from the left and without overlap. An empty `pat` replaces nothing.
pub open spec fn replace(s: Seq<char>, pat: Seq<char>, to: Seq<char>) -> Seq<char> {
    join(split(s, pat), to)
}

/// Replaces every occurrence of `pat` in `s` by `to`.
pub fn replace_exec(s: &str, pat: &str, to: &str) -> (out: String)
    ensures
        out@ == replace(s@, pat@, to@),
{
    let pieces: Vec<&str> = split_exec(s, pat);
    assert(views(pieces@).subrange(0, pieces@.len() as int) =~= views(pieces@));
    join_exec(&pieces, 0, to)
}

/// The character that writes the digit `d`.
pub open spec fn digit(d: int) -> char {
    if d == 0 {
        '0'
    } else if d == 1 {
        '1'
    } else if d == 2 {
        '2'
    } else if d == 3 {
        '3'
    } else if d == 4 {
        '4'
    } else if d == 5 {
        '5'
    } else if d == 6 {
        '6'
    } else if d == 7 {
        '7'
    } else if d == 8 {
        '8'
    } else {
        '9'
    }
}

/// The number `n` written in base ten, without leading zeros.
pub open spec fn decimal(n: nat) -> Seq<char>
    decreases n,
{
    if n < 10 {
        seq![digit(n as int)]
    } else {
        decimal(n / 10).push(digit((n % 10) as int))
    }
}

/// The one-character string that writes the digit `d`.
fn digit_str(d: usize) -> (r: &'static str)
    requires
        d < 10,
    ensures
        r@ == seq![digit(d as int)],
{
    proof {
        reveal_strlit("0");
        reveal_strlit("1");
        reveal_strlit("2");
        reveal_strlit("3");
        reveal_strlit("4");
        reveal_strlit("5");
        reveal_strlit("6");
        reveal_strlit("7");
        reveal_strlit("8");
        reveal_strlit("9");
    }
    let r: &'static str = if d == 0 {
        "0"
    } else if d == 1 {
        "1"
    } else if d == 2 {
        "2"
    } else if d == 3 {
        "3"
    } else if d == 4 {
        "4"
    } else if d == 5 {
        "5"
    } else if d == 6 {
        "6"
    } else if d == 7 {
        "7"
    } else if d == 8 {
        "8"
    } else {
        "9"
    };
    assert(r@ =~= seq![digit(d as int)]);
    r
}

/// Writes `n` in base ten.
pub fn decimal_exec(n: usize) -> (out: String)
    ensures
        out@ == decimal(n as nat),
    decreases n,
{
    if n < 10 {
        String::from_str(digit_str(n))
    } else {
        let mut out: String = decimal_exec(n / 10);
        out.append(digit_str(n % 10));
        assert(out@ =~= decimal((n / 10) as nat).push(digit((n % 10) as int)));
        out
    }
}

} // verus!
