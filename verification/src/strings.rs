//! Character-sequence helpers shared by the renderers: the mathematical
//! definitions of joining, repeating and replacing, and small executable
//! building blocks proved against them.
use vstd::prelude::*;

verus! {

/// `parts` joined with `sep` between consecutive parts.
pub open spec fn join(parts: Seq<Seq<char>>, sep: Seq<char>) -> Seq<char>
    decreases parts.len(),
{
    if parts.len() == 0 {
        Seq::empty()
    } else if parts.len() == 1 {
        parts[0]
    } else {
        join(parts.drop_last(), sep) + sep + parts.last()
    }
}

/// All parts concatenated in order.
pub open spec fn concat(parts: Seq<Seq<char>>) -> Seq<char>
    decreases parts.len(),
{
    if parts.len() == 0 {
        Seq::empty()
    } else {
        concat(parts.drop_last()) + parts.last()
    }
}

/// `s` repeated `n` times.
pub open spec fn repeat(s: Seq<char>, n: nat) -> Seq<char>
    decreases n,
{
    if n == 0 {
        Seq::empty()
    } else {
        repeat(s, (n - 1) as nat) + s
    }
}

/// `s` with every occurrence of the character `c` replaced by `rep`.
pub open spec fn replace_char(s: Seq<char>, c: char, rep: Seq<char>) -> Seq<char>
    decreases s.len(),
{
    if s.len() == 0 {
        Seq::empty()
    } else {
        replace_char(s.drop_last(), c, rep) + (if s.last() == c {
            rep
        } else {
            seq![s.last()]
        })
    }
}

/// The views of a sequence of strings.
pub open spec fn views(v: Seq<String>) -> Seq<Seq<char>> {
    v.map_values(|s: String| s@)
}

/// `pat` occurs in `s` as a contiguous block.
pub open spec fn contains_sub(s: Seq<char>, pat: Seq<char>) -> bool {
    exists|i: int| 0 <= i && i + pat.len() <= s.len() && #[trigger] s.subrange(i, i + pat.len()) == pat
}

/// `pat` is a prefix of `s`.
pub open spec fn starts_with(s: Seq<char>, pat: Seq<char>) -> bool {
    pat.len() <= s.len() && s.subrange(0, pat.len() as int) == pat
}

/// Number of occurrences of the character `c` in `s`.
pub open spec fn count_char(s: Seq<char>, c: char) -> nat
    decreases s.len(),
{
    if s.len() == 0 {
        0
    } else {
        count_char(s.drop_last(), c) + (if s.last() == c {
            1nat
        } else {
            0nat
        })
    }
}

/// Appends one character to a string.
///
/// Trusted: `String::push`, which std documents as appending the given
/// `char` to the end of the string; the contract says exactly that.
#[verifier::external_body]
pub fn push_char(s: &mut String, c: char)
    ensures
        final(s)@ == old(s)@.push(c),
{
    s.push(c);
}

/// Whether `b` occurs in `a` at position `i`.
fn matches_at(a: &Vec<char>, b: &Vec<char>, i: usize) -> (res: bool)
    requires
        i + b@.len() <= a@.len(),
    ensures
        res == (a@.subrange(i as int, i + b@.len()) == b@),
{
    let n: usize = a.len();
    let mut j: usize = 0;
    while j < b.len()
        invariant
            n == a@.len(),
            j <= b@.len(),
            i + b@.len() <= a@.len(),
            forall|k: int| 0 <= k < j ==> a@[i + k] == b@[k],
        decreases b@.len() - j,
    {
        if a[i + j] != b[j] {
            assert(a@.subrange(i as int, i + b@.len())[j as int] != b@[j as int]);
            return false;
        }
        j = j + 1;
    }
    assert(a@.subrange(i as int, i + b@.len()) =~= b@);
    true
}

/// Whether `pat` occurs in `s`.
pub fn str_contains(s: &str, pat: &str) -> (res: bool)
    ensures
        res == contains_sub(s@, pat@),
{
    let a = chars_of(s);
    let b = chars_of(pat);
    if b.len() > a.len() {
        return false;
    }
    let last: usize = a.len() - b.len();
    let mut i: usize = 0;
    while i <= last
        invariant
            a@ == s@,
            b@ == pat@,
            last == a@.len() - b@.len(),
            i <= last + 1,
            forall|k: int| 0 <= k < i ==> #[trigger] a@.subrange(k, k + b@.len()) != b@,
        decreases last + 1 - i,
    {
        if matches_at(&a, &b, i) {
            return true;
        }
        if i == last {
            return false;
        }
        i = i + 1;
    }
    false
}

/// Whether `s` starts with `pat`.
pub fn str_starts_with(s: &str, pat: &str) -> (res: bool)
    ensures
        res == starts_with(s@, pat@),
{
    let a = chars_of(s);
    let b = chars_of(pat);
    if b.len() > a.len() {
        return false;
    }
    matches_at(&a, &b, 0)
}

/// The characters of a string slice, in order.
pub fn chars_of(s: &str) -> (res: Vec<char>)
    ensures
        res@ == s@,
{
    let mut res: Vec<char> = Vec::new();
    for c in it: s.chars()
        invariant
            res@ == it.seq().take(it.index() as int),
    {
        res.push(c);
    }
    res
}

/// Whether the character `c` occurs in `s`.
pub fn has_char(s: &str, c: char) -> (res: bool)
    ensures
        res == s@.contains(c),
{
    let cs = chars_of(s);
    let mut i: usize = 0;
    while i < cs.len()
        invariant
            cs@ == s@,
            i <= cs.len(),
            forall|j: int| 0 <= j < i ==> cs@[j] != c,
        decreases cs.len() - i,
    {
        if cs[i] == c {
            return true;
        }
        i = i + 1;
    }
    false
}

/// Number of occurrences of `c` in `s`.
pub fn count_of(s: &str, c: char) -> (res: usize)
    ensures
        res == count_char(s@, c),
{
    let cs = chars_of(s);
    let mut n: usize = 0;
    let mut i: usize = 0;
    while i < cs.len()
        invariant
            cs@ == s@,
            i <= cs.len(),
            n == count_char(cs@.take(i as int), c),
            n <= i,
        decreases cs.len() - i,
    {
        assert(cs@.take(i + 1).drop_last() =~= cs@.take(i as int));
        if cs[i] == c {
            n = n + 1;
        }
        i = i + 1;
    }
    assert(cs@.take(cs.len() as int) =~= cs@);
    n
}

/// Appends `s` to `out` with every `c` replaced by `rep`.
pub fn push_replaced(out: &mut String, s: &str, c: char, rep: &str)
    ensures
        final(out)@ == old(out)@ + replace_char(s@, c, rep@),
{
    let cs = chars_of(s);
    let mut i: usize = 0;
    while i < cs.len()
        invariant
            cs@ == s@,
            i <= cs.len(),
            out@ == old(out)@ + replace_char(cs@.take(i as int), c, rep@),
        decreases cs.len() - i,
    {
        assert(cs@.take(i + 1).drop_last() =~= cs@.take(i as int));
        let ch = cs[i];
        if ch == c {
            out.append(rep);
        } else {
            push_char(out, ch);
        }
        i = i + 1;
    }
    assert(cs@.take(cs.len() as int) =~= cs@);
}

/// Appends `s` repeated `n` times to `out`.
pub fn push_repeated(out: &mut String, s: &str, n: u64)
    ensures
        final(out)@ == old(out)@ + repeat(s@, n as nat),
{
    let mut i: u64 = 0;
    while i < n
        invariant
            i <= n,
            out@ == old(out)@ + repeat(s@, i as nat),
        decreases n - i,
    {
        out.append(s);
        i = i + 1;
    }
}

/// Appends the strings of `parts` to `out`, separated by `sep`.
pub fn push_joined(out: &mut String, parts: &Vec<String>, sep: &str)
    ensures
        final(out)@ == old(out)@ + join(views(parts@), sep@),
{
    let mut i: usize = 0;
    while i < parts.len()
        invariant
            i <= parts.len(),
            out@ == old(out)@ + join(views(parts@.take(i as int)), sep@),
        decreases parts.len() - i,
    {
        let ghost before = out@;
        assert(views(parts@.take(i + 1)).drop_last() =~= views(parts@.take(i as int)));
        if i > 0 {
            out.append(sep);
        } else {
            assert(views(parts@.take(0)) =~= Seq::<Seq<char>>::empty());
        }
        out.append(parts[i].as_str());
        i = i + 1;
        assert(out@ == old(out)@ + join(views(parts@.take(i as int)), sep@));
    }
    assert(parts@.take(parts.len() as int) =~= parts@);
}

/// A copy of the string `s`.
pub fn string_of(s: &str) -> (res: String)
    ensures
        res@ == s@,
{
    let mut res = String::new();
    res.append(s);
    res
}

/// The Unicode `White_Space` characters (what `char::is_whitespace` tests).
pub open spec fn is_ws(c: char) -> bool {
    ('\u{9}' <= c && c <= '\u{d}') || c == ' ' || c == '\u{85}' || c == '\u{a0}' || c == '\u{1680}'
        || ('\u{2000}' <= c && c <= '\u{200a}') || c == '\u{2028}' || c == '\u{2029}' || c
        == '\u{202f}' || c == '\u{205f}' || c == '\u{3000}'
}

/// `s` without its leading whitespace.
pub open spec fn trim_start(s: Seq<char>) -> Seq<char>
    decreases s.len(),
{
    if s.len() > 0 && is_ws(s[0]) {
        trim_start(s.drop_first())
    } else {
        s
    }
}

/// `s` without its trailing whitespace.
pub open spec fn trim_end(s: Seq<char>) -> Seq<char>
    decreases s.len(),
{
    if s.len() > 0 && is_ws(s.last()) {
        trim_end(s.drop_last())
    } else {
        s
    }
}

/// `s` without leading and trailing whitespace.
pub open spec fn trimmed(s: Seq<char>) -> Seq<char> {
    trim_end(trim_start(s))
}

/// The whitespace-separated words of what is left of `s`, appended to `acc`
/// with single spaces between words; `pending` says a space is owed before
/// the next word.
pub open spec fn collapse_from(s: Seq<char>, acc: Seq<char>, pending: bool) -> Seq<char>
    decreases s.len(),
{
    if s.len() == 0 {
        acc
    } else if is_ws(s[0]) {
        collapse_from(s.drop_first(), acc, acc.len() > 0)
    } else {
        collapse_from(
            s.drop_first(),
            (if pending {
                acc.push(' ')
            } else {
                acc
            }).push(s[0]),
            false,
        )
    }
}

/// The words of `s` joined by single spaces (what
/// `split_whitespace().collect::<Vec<_>>().join(" ")` gives).
pub open spec fn collapse_ws(s: Seq<char>) -> Seq<char> {
    collapse_from(s, Seq::empty(), false)
}

/// The characters of `s` that are not whitespace, in order.
pub open spec fn non_ws(s: Seq<char>) -> Seq<char>
    decreases s.len(),
{
    if s.len() == 0 {
        Seq::empty()
    } else {
        (if is_ws(s[0]) {
            Seq::empty()
        } else {
            seq![s[0]]
        }) + non_ws(s.drop_first())
    }
}

/// `s` is in whitespace normal form: it neither starts nor ends with
/// whitespace, and its only whitespace is single spaces between other
/// characters.
pub open spec fn ws_normal(s: Seq<char>) -> bool {
    &&& s.len() > 0 ==> !is_ws(s[0])
    &&& forall|i: int|
        0 <= i < s.len() && #[trigger] is_ws(s[i]) ==> s[i] == ' ' && i + 1 < s.len() && !is_ws(s[i + 1])
}

/// The non-whitespace characters of a concatenation.
proof fn lemma_non_ws_concat(a: Seq<char>, b: Seq<char>)
    ensures
        non_ws(a + b) == non_ws(a) + non_ws(b),
    decreases a.len(),
{
    if a.len() == 0 {
        assert(a + b =~= b);
        assert(non_ws(a) + non_ws(b) =~= non_ws(b));
    } else {
        lemma_non_ws_concat(a.drop_first(), b);
        assert((a + b).drop_first() =~= a.drop_first() + b);
        assert((a + b)[0] == a[0]);
        assert(non_ws(a + b) =~= non_ws(a) + non_ws(b));
    }
}

/// What the collapse from a normal prefix gives.
proof fn lemma_collapse_from(s: Seq<char>, acc: Seq<char>, pending: bool)
    requires
        ws_normal(acc),
        pending ==> acc.len() > 0,
    ensures
        ws_normal(collapse_from(s, acc, pending)),
        non_ws(collapse_from(s, acc, pending)) == non_ws(acc) + non_ws(s),
    decreases s.len(),
{
    if s.len() == 0 {
        assert(non_ws(acc) + non_ws(s) =~= non_ws(acc));
    } else if is_ws(s[0]) {
        lemma_collapse_from(s.drop_first(), acc, acc.len() > 0);
        assert(non_ws(s) =~= non_ws(s.drop_first()));
    } else {
        let c = s[0];
        let base = if pending {
            acc.push(' ')
        } else {
            acc
        };
        let next = base.push(c);
        assert(acc.len() > 0 ==> !is_ws(acc[acc.len() - 1])) by {
            if acc.len() > 0 && is_ws(acc[acc.len() - 1]) {
                assert(acc.len() - 1 + 1 < acc.len());
            }
        }
        assert(ws_normal(next)) by {
            assert forall|i: int| 0 <= i < next.len() && #[trigger] is_ws(next[i]) implies next[i] == ' ' && i + 1
                < next.len() && !is_ws(next[i + 1]) by {
                if i < acc.len() {
                    assert(next[i] == acc[i]);
                    assert(is_ws(acc[i]));
                    assert(i + 1 < acc.len());
                    assert(next[i + 1] == acc[i + 1]);
                } else if i == next.len() - 1 {
                    assert(next[i] == c);
                } else {
                    assert(pending && i == acc.len());
                    assert(next[i + 1] == c);
                }
            }
            if next.len() > 0 {
                if acc.len() > 0 {
                    assert(next[0] == acc[0]);
                } else {
                    assert(next[0] == c);
                }
            }
        }
        lemma_collapse_from(s.drop_first(), next, false);
        assert(non_ws(Seq::<char>::empty()) == Seq::<char>::empty());
        assert(non_ws(seq![c]) =~= seq![c]) by {
            assert(seq![c].drop_first() =~= Seq::<char>::empty());
            assert(seq![c][0] == c);
        }
        assert(non_ws(seq![' ']) =~= Seq::<char>::empty()) by {
            assert(seq![' '].drop_first() =~= Seq::<char>::empty());
            assert(seq![' '][0] == ' ');
            assert(is_ws(' '));
        }
        if pending {
            assert(next =~= acc + seq![' '] + seq![c]);
            lemma_non_ws_concat(acc, seq![' ']);
            lemma_non_ws_concat(acc + seq![' '], seq![c]);
        } else {
            assert(next =~= acc + seq![c]);
            lemma_non_ws_concat(acc, seq![c]);
        }
        assert(non_ws(s) =~= seq![c] + non_ws(s.drop_first()));
        assert(non_ws(next) + non_ws(s.drop_first()) =~= non_ws(acc) + non_ws(s));
    }
}

/// Collapsing whitespace gives the whitespace normal form and keeps every
/// other character, in order.
pub proof fn law_collapse_normal_form(s: Seq<char>)
    ensures
        ws_normal(collapse_ws(s)),
        non_ws(collapse_ws(s)) == non_ws(s),
{
    lemma_collapse_from(s, Seq::empty(), false);
    assert(non_ws(Seq::<char>::empty()) + non_ws(s) =~= non_ws(s));
}

/// Whether `c` is Unicode whitespace.
pub fn is_whitespace(c: char) -> (res: bool)
    ensures
        res == is_ws(c),
{
    ('\u{9}' <= c && c <= '\u{d}') || c == ' ' || c == '\u{85}' || c == '\u{a0}' || c == '\u{1680}'
        || ('\u{2000}' <= c && c <= '\u{200a}') || c == '\u{2028}' || c == '\u{2029}' || c
        == '\u{202f}' || c == '\u{205f}' || c == '\u{3000}'
}

/// Appends `s` without leading and trailing whitespace to `out`.
pub fn push_trimmed(out: &mut String, s: &str)
    ensures
        final(out)@ == old(out)@ + trimmed(s@),
{
    let cs = chars_of(s);
    let n = cs.len();
    let mut lo: usize = 0;
    assert(cs@.skip(0) =~= cs@);
    while lo < n && is_whitespace(cs[lo])
        invariant
            cs@ == s@,
            n == cs.len(),
            lo <= n,
            trim_start(cs@) == trim_start(cs@.skip(lo as int)),
        decreases n - lo,
    {
        assert(cs@.skip(lo as int).drop_first() =~= cs@.skip(lo + 1));
        lo = lo + 1;
    }
    let ghost t = cs@.skip(lo as int);
    assert(trim_start(cs@) == t);
    let mut hi: usize = n;
    while hi > lo && is_whitespace(cs[hi - 1])
        invariant
            cs@ == s@,
            n == cs.len(),
            lo <= hi <= n,
            t == cs@.skip(lo as int),
            trim_end(t) == trim_end(cs@.subrange(lo as int, hi as int)),
        decreases hi - lo,
    {
        assert(cs@.subrange(lo as int, hi as int).drop_last() =~= cs@.subrange(lo as int, hi - 1));
        hi = hi - 1;
    }
    assert(trim_end(t) == cs@.subrange(lo as int, hi as int));
    let mut i: usize = lo;
    while i < hi
        invariant
            lo <= i <= hi <= n,
            n == cs.len(),
            out@ == old(out)@ + cs@.subrange(lo as int, i as int),
        decreases hi - i,
    {
        assert(cs@.subrange(lo as int, i + 1) =~= cs@.subrange(lo as int, i as int).push(cs@[i as int]));
        push_char(out, cs[i]);
        i = i + 1;
    }
}

/// The words of `s` joined by single spaces.
pub fn collapse_whitespace(s: &str) -> (res: String)
    ensures
        res@ == collapse_ws(s@),
{
    let cs = chars_of(s);
    let mut out = String::new();
    let mut pending = false;
    let mut wrote = false;
    let mut i: usize = 0;
    assert(cs@.skip(0) =~= cs@);
    while i < cs.len()
        invariant
            cs@ == s@,
            i <= cs.len(),
            collapse_ws(s@) == collapse_from(cs@.skip(i as int), out@, pending),
            wrote == (out@.len() > 0),
        decreases cs.len() - i,
    {
        assert(cs@.skip(i as int).drop_first() =~= cs@.skip(i + 1));
        let c = cs[i];
        if is_whitespace(c) {
            pending = wrote;
        } else {
            if pending {
                push_char(&mut out, ' ');
            }
            push_char(&mut out, c);
            pending = false;
            wrote = true;
        }
        i = i + 1;
    }
    out
}

/// The decimal digit character for `d < 10`.
pub open spec fn digit_char(d: nat) -> char {
    if d == 0 {
        '0'
    } else if d == 1 {
        '1'
    } else if d == 2 {
        '2'
    } else if d == 3 {
        '3'
    } else if d == 4 {
        '4'
    } else if d == 5 {
        '5'
    } else if d == 6 {
        '6'
    } else if d == 7 {
        '7'
    } else if d == 8 {
        '8'
    } else {
        '9'
    }
}

/// The decimal representation of `n`, without leading zeros.
pub open spec fn decimal(n: nat) -> Seq<char>
    decreases n,
{
    if n < 10 {
        seq![digit_char(n)]
    } else {
        decimal(n / 10).push(digit_char(n % 10))
    }
}

fn digit(d: u128) -> (res: char)
    requires
        d < 10,
    ensures
        res == digit_char(d as nat),
{
    if d == 0 {
        '0'
    } else if d == 1 {
        '1'
    } else if d == 2 {
        '2'
    } else if d == 3 {
        '3'
    } else if d == 4 {
        '4'
    } else if d == 5 {
        '5'
    } else if d == 6 {
        '6'
    } else if d == 7 {
        '7'
    } else if d == 8 {
        '8'
    } else {
        '9'
    }
}

/// Appends the decimal representation of `n` to `out`.
pub fn push_decimal(out: &mut String, n: u128)
    ensures
        final(out)@ == old(out)@ + decimal(n as nat),
    decreases n,
{
    if n >= 10 {
        push_decimal(out, n / 10);
    }
    push_char(out, digit(n % 10));
    assert(out@ =~= old(out)@ + decimal(n as nat));
}

/// The views of a sequence grown by one string.
pub proof fn lemma_views_push(v: Seq<String>, s: String)
    ensures
        views(v.push(s)) == views(v).push(s@),
{
    assert(views(v.push(s)) =~= views(v).push(s@));
}

/// The views of a prefix grown by one element.
pub proof fn lemma_views_take(v: Seq<String>, i: int)
    requires
        0 <= i < v.len(),
    ensures
        views(v.take(i + 1)) == views(v.take(i)).push(v[i]@),
{
    assert(v.take(i + 1) =~= v.take(i).push(v[i]));
    lemma_views_push(v.take(i), v[i]);
}

/// Whether two strings are equal.
pub fn str_eq(a: &str, b: &str) -> (res: bool)
    ensures
        res == (a@ == b@),
{
    let x = string_of(a);
    let y = string_of(b);
    x == y
}

/// Whether `v` holds a string equal to `s`.
pub fn contains_str(v: &Vec<String>, s: &str) -> (res: bool)
    ensures
        res == views(v@).contains(s@),
{
    let mut i: usize = 0;
    while i < v.len()
        invariant
            i <= v@.len(),
            forall|j: int| 0 <= j < i ==> v@[j]@ != s@,
        decreases v@.len() - i,
    {
        if str_eq(v[i].as_str(), s) {
            assert(views(v@)[i as int] == s@);
            return true;
        }
        i = i + 1;
    }
    assert forall|j: int| 0 <= j < views(v@).len() implies views(v@)[j] != s@ by {
        assert(views(v@)[j] == v@[j]@);
    }
    false
}

/// Counting a character distributes over concatenation.
pub proof fn lemma_count_concat(a: Seq<char>, b: Seq<char>, c: char)
    ensures
        count_char(a + b, c) == count_char(a, c) + count_char(b, c),
    decreases b.len(),
{
    if b.len() == 0 {
        assert(a + b =~= a);
    } else {
        lemma_count_concat(a, b.drop_last(), c);
        assert((a + b).drop_last() =~= a + b.drop_last());
    }
}

/// A character repeated `n` times holds `n` of itself and none of any other.
pub proof fn lemma_count_repeat(x: char, n: nat, c: char)
    ensures
        count_char(repeat(seq![x], n), c) == if x == c {
            n
        } else {
            0
        },
    decreases n,
{
    if n > 0 {
        lemma_count_repeat(x, (n - 1) as nat, c);
        lemma_count_concat(repeat(seq![x], (n - 1) as nat), seq![x], c);
        assert(seq![x].drop_last() =~= Seq::<char>::empty());
        assert(count_char(Seq::<char>::empty(), c) == 0);
        assert(count_char(seq![x], c) == if x == c {
            1nat
        } else {
            0nat
        });
    }
}

/// A character repeated `n` times is `n` copies of it.
pub proof fn lemma_repeat_char(x: char, n: nat)
    ensures
        repeat(seq![x], n).len() == n,
        forall|i: int| 0 <= i < n ==> #[trigger] repeat(seq![x], n)[i] == x,
    decreases n,
{
    if n > 0 {
        lemma_repeat_char(x, (n - 1) as nat);
    }
}

/// A sequence holding `c` counts it at least once.
pub proof fn lemma_count_contains(s: Seq<char>, c: char)
    requires
        s.contains(c),
    ensures
        count_char(s, c) > 0,
    decreases s.len(),
{
    if s.last() != c {
        let i = choose|i: int| 0 <= i < s.len() && s[i] == c;
        assert(s.drop_last()[i] == c);
        lemma_count_contains(s.drop_last(), c);
    }
}

/// A sequence without `c` counts it zero times.
pub proof fn lemma_count_absent(s: Seq<char>, c: char)
    requires
        !s.contains(c),
    ensures
        count_char(s, c) == 0,
    decreases s.len(),
{
    if s.len() > 0 {
        assert(!s.drop_last().contains(c)) by {
            if s.drop_last().contains(c) {
                let i = choose|i: int| 0 <= i < s.drop_last().len() && s.drop_last()[i] == c;
                assert(s[i] == c);
            }
        }
        assert(s[s.len() - 1] != c);
        lemma_count_absent(s.drop_last(), c);
    }
}

/// A pattern that holds `c` occurs only in a sequence that holds `c`.
pub proof fn lemma_sub_contains(s: Seq<char>, pat: Seq<char>, j: int, c: char)
    requires
        contains_sub(s, pat),
        0 <= j < pat.len(),
        pat[j] == c,
    ensures
        s.contains(c),
{
    let i = choose|i: int| 0 <= i && i + pat.len() <= s.len() && #[trigger] s.subrange(i, i + pat.len()) == pat;
    assert(s.subrange(i, i + pat.len())[j] == c);
    assert(s[i + j] == c);
}

} // verus!
