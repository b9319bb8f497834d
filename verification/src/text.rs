//! Text primitives: decimal numbers, substring replacement and path joining.

use vstd::prelude::*;
use vstd::string::*;

verus! {

/// `String::push` of std: appends the character to the end of the string.
pub assume_specification[ String::push ](s: &mut String, ch: char)
    ensures
        final(s)@ == old(s)@.push(ch),
;

/// The characters of `s`, in order.
pub fn chars_of(s: &str) -> (v: Vec<char>)
    ensures
        v@ == s@,
{
    let mut v: Vec<char> = Vec::new();
    for c in it: s.chars()
        invariant
            v@ == it.seq().take(it.index() as int),
            it.seq() == s@,
    {
        v.push(c);
    }
    v
}

/// The digit that stands for `d`.
pub open spec fn digit(d: nat) -> char
    recommends
        d < 10,
{
    (48 + d) as char
}

/// `n` in base ten, without leading zeros.
pub open spec fn decimal(n: nat) -> Seq<char>
    decreases n,
{
    if n < 10 {
        seq![digit(n)]
    } else {
        decimal(n / 10).push(digit(n % 10))
    }
}

fn digit_char(d: usize) -> (c: char)
    requires
        d < 10,
    ensures
        c == digit(d as nat),
{
    match d {
        0 => '0',
        1 => '1',
        2 => '2',
        3 => '3',
        4 => '4',
        5 => '5',
        6 => '6',
        7 => '7',
        8 => '8',
        _ => '9',
    }
}

/// Writes `n` in base ten.
pub fn decimal_string(n: usize) -> (s: String)
    ensures
        s@ == decimal(n as nat),
    decreases n,
{
    if n < 10 {
        let mut s = String::new();
        s.push(digit_char(n));
        s
    } else {
        let mut s = decimal_string(n / 10);
        s.push(digit_char(n % 10));
        s
    }
}

/// `s` with every occurrence of the non-empty `pat` replaced by `with`, scanning
/// from the left and never looking inside text that was put in.
pub open spec fn replaced(s: Seq<char>, pat: Seq<char>, with: Seq<char>) -> Seq<char>
    recommends
        pat.len() > 0,
    decreases s.len(),
{
    if pat.len() == 0 || s.len() < pat.len() {
        s
    } else if pat.is_prefix_of(s) {
        with + replaced(s.skip(pat.len() as int), pat, with)
    } else {
        seq![s[0]] + replaced(s.skip(1), pat, with)
    }
}

/// Whether `pat` occurs somewhere in `s`.
pub open spec fn occurs(pat: Seq<char>, s: Seq<char>) -> bool {
    exists|i: int| 0 <= i <= s.len() && #[trigger] pat.is_prefix_of(s.skip(i))
}

fn matches_at(s: &Vec<char>, i: usize, pat: &Vec<char>) -> (r: bool)
    requires
        i <= s@.len(),
    ensures
        r == pat@.is_prefix_of(s@.skip(i as int)),
{
    if s.len() - i < pat.len() {
        return false;
    }
    let mut k: usize = 0;
    while k < pat.len()
        invariant
            k <= pat@.len(),
            i + pat.len() <= s.len(),
            forall|j: int| 0 <= j < k ==> pat@[j] == s@[i + j],
        decreases pat@.len() - k,
    {
        if s[i + k] != pat[k] {
            assert(s@.skip(i as int).subrange(0, pat@.len() as int)[k as int] != pat@[k as int]);
            return false;
        }
        k += 1;
    }
    assert(pat@ =~= s@.skip(i as int).subrange(0, pat@.len() as int));
    true
}

/// Replaces every occurrence of `pat` in `s` by `with`.
pub fn replace_all(s: &str, pat: &str, with: &str) -> (r: String)
    requires
        pat@.len() > 0,
    ensures
        r@ == replaced(s@, pat@, with@),
{
    let chars = chars_of(s);
    let pattern = chars_of(pat);
    let mut out = String::new();
    let mut i: usize = 0;
    proof {
        assert(s@.skip(0) =~= s@);
    }
    while i < chars.len()
        invariant
            i <= chars@.len(),
            chars@ == s@,
            pattern@ == pat@,
            pat@.len() > 0,
            out@ + replaced(s@.skip(i as int), pat@, with@) == replaced(s@, pat@, with@),
        decreases chars@.len() - i,
    {
        let ghost rest = s@.skip(i as int);
        if matches_at(&chars, i, &pattern) {
            proof {
                assert(rest.skip(pat@.len() as int) =~= s@.skip(i + pat@.len()));
                assert(out@ + (with@ + replaced(s@.skip(i + pat@.len()), pat@, with@)) =~= (out@
                    + with@) + replaced(s@.skip(i + pat@.len()), pat@, with@));
            }
            out.append(with);
            i += pattern.len();
        } else {
            proof {
                assert(rest.skip(1) =~= s@.skip(i + 1));
                if rest.len() < pat@.len() {
                    assert(s@.skip(i + 1).len() < pat@.len());
                    assert(rest =~= seq![rest[0]] + s@.skip(i + 1));
                }
                assert(out@ + (seq![rest[0]] + replaced(s@.skip(i + 1), pat@, with@)) =~= out@.push(
                    rest[0],
                ) + replaced(s@.skip(i + 1), pat@, with@));
            }
            out.push(chars[i]);
            i += 1;
        }
    }
    proof {
        assert(s@.skip(i as int) =~= Seq::<char>::empty());
        assert(out@ + Seq::<char>::empty() =~= out@);
    }
    out
}

/// The path that leads from `base` to the relative, non-empty `rel`: the two with a
/// single separator between them, where `base` does not end in one already.
pub open spec fn joined(base: Seq<char>, rel: Seq<char>) -> Seq<char> {
    if base.len() == 0 || base.last() == '/' {
        base + rel
    } else {
        base.push('/') + rel
    }
}

/// Appends the relative path `rel` to `base`.
pub fn join_path(base: &str, rel: &str) -> (r: String)
    ensures
        r@ == joined(base@, rel@),
{
    let chars = chars_of(base);
    let mut out = base.to_owned();
    if chars.len() > 0 && chars[chars.len() - 1] != '/' {
        out.push('/');
    }
    out.append(rel);
    out
}

/// What does not occur is not replaced.
pub proof fn lemma_replaced_absent(s: Seq<char>, pat: Seq<char>, with: Seq<char>)
    requires
        !occurs(pat, s),
    ensures
        replaced(s, pat, with) == s,
    decreases s.len(),
{
    if pat.len() > 0 && s.len() >= pat.len() {
        assert(s.skip(0) =~= s);
        assert forall|i: int| 0 <= i <= s.skip(1).len() implies !(#[trigger] pat.is_prefix_of(
            s.skip(1).skip(i),
        )) by {
            assert(s.skip(1).skip(i) =~= s.skip(1 + i));
        }
        lemma_replaced_absent(s.skip(1), pat, with);
        assert(seq![s[0]] + s.skip(1) =~= s);
    }
}

/// The longer the text put in, the longer the result.
proof fn lemma_replaced_len(s: Seq<char>, pat: Seq<char>, a: Seq<char>, b: Seq<char>)
    requires
        a.len() <= b.len(),
    ensures
        replaced(s, pat, a).len() <= replaced(s, pat, b).len(),
    decreases s.len(),
{
    if pat.len() > 0 && s.len() >= pat.len() {
        if pat.is_prefix_of(s) {
            lemma_replaced_len(s.skip(pat.len() as int), pat, a, b);
        } else {
            lemma_replaced_len(s.skip(1), pat, a, b);
        }
    }
}

/// Where the pattern occurs, different texts put in give different results.
pub proof fn lemma_replaced_injective(s: Seq<char>, pat: Seq<char>, a: Seq<char>, b: Seq<char>)
    requires
        pat.len() > 0,
        occurs(pat, s),
        replaced(s, pat, a) == replaced(s, pat, b),
    ensures
        a == b,
    decreases s.len(),
{
    let k = choose|k: int| 0 <= k <= s.len() && #[trigger] pat.is_prefix_of(s.skip(k));
    assert(s.len() >= pat.len());
    if pat.is_prefix_of(s) {
        let rest = s.skip(pat.len() as int);
        let ra = replaced(rest, pat, a);
        let rb = replaced(rest, pat, b);
        if a.len() < b.len() {
            lemma_replaced_len(rest, pat, a, b);
            assert((a + ra).len() < (b + rb).len());
        } else if b.len() < a.len() {
            lemma_replaced_len(rest, pat, b, a);
            assert((b + rb).len() < (a + ra).len());
        } else {
            assert((a + ra).take(a.len() as int) =~= a);
            assert((b + rb).take(b.len() as int) =~= b);
        }
    } else {
        assert(s.skip(0) =~= s);
        assert(k > 0);
        assert(s.skip(1).skip(k - 1) =~= s.skip(k));
        let ra = replaced(s.skip(1), pat, a);
        let rb = replaced(s.skip(1), pat, b);
        assert((seq![s[0]] + ra).skip(1) =~= ra);
        assert((seq![s[0]] + rb).skip(1) =~= rb);
        lemma_replaced_injective(s.skip(1), pat, a, b);
    }
}

/// Where the text put in begins with a character that `other` does not have, a result that
/// begins with a tail of `other` comes from a text that begins with it.
pub proof fn lemma_replaced_prefix(
    s: Seq<char>,
    pat: Seq<char>,
    with: Seq<char>,
    other: Seq<char>,
    k: int,
)
    requires
        with.len() > 0,
        !other.contains(with[0]),
        0 <= k <= other.len(),
        other.skip(k).is_prefix_of(replaced(s, pat, with)),
    ensures
        other.skip(k).is_prefix_of(s),
    decreases s.len(),
{
    let tail = other.skip(k);
    if k < other.len() && pat.len() > 0 && s.len() >= pat.len() {
        let r = replaced(s, pat, with);
        assert(tail[0] == r.subrange(0, tail.len() as int)[0]);
        if pat.is_prefix_of(s) {
            assert(r[0] == with[0]);
            assert(other[k] == with[0]);
        } else {
            let rest = replaced(s.skip(1), pat, with);
            assert(r.skip(1) =~= rest);
            assert(other.skip(k + 1) =~= tail.skip(1));
            assert forall|j: int| 0 <= j < other.skip(k + 1).len() implies other.skip(k + 1)[j]
                == rest[j] by {
                assert(tail[j + 1] == r.subrange(0, tail.len() as int)[j + 1]);
            }
            assert(other.skip(k + 1) =~= rest.subrange(0, other.skip(k + 1).len() as int));
            lemma_replaced_prefix(s.skip(1), pat, with, other, k + 1);
            assert forall|j: int| 0 <= j < tail.len() implies tail[j] == s[j] by {
                if j > 0 {
                    assert(other.skip(k + 1)[j - 1] == s.skip(1).subrange(
                        0,
                        other.skip(k + 1).len() as int,
                    )[j - 1]);
                }
            }
            assert(tail =~= s.subrange(0, tail.len() as int));
        }
    }
}

/// Putting a text in does not make another pattern appear, where that pattern does not
/// have the text's first character and the text does not have the pattern's.
pub proof fn lemma_replaced_keeps_absent(
    s: Seq<char>,
    pat: Seq<char>,
    with: Seq<char>,
    other: Seq<char>,
)
    requires
        with.len() > 0,
        other.len() > 0,
        !other.contains(with[0]),
        !with.contains(other[0]),
        !occurs(other, s),
    ensures
        !occurs(other, replaced(s, pat, with)),
    decreases s.len(),
{
    let r = replaced(s, pat, with);
    if pat.len() > 0 && s.len() >= pat.len() && occurs(other, r) {
        let k = choose|k: int| 0 <= k <= r.len() && #[trigger] other.is_prefix_of(r.skip(k));
        assert(s.skip(0) =~= s);
        assert(other[0] == r.skip(k).subrange(0, other.len() as int)[0]);
        assert(r[k] == other[0]);
        if pat.is_prefix_of(s) {
            let rest = s.skip(pat.len() as int);
            assert forall|i: int| 0 <= i <= rest.len() implies !(#[trigger] other.is_prefix_of(
                rest.skip(i),
            )) by {
                assert(rest.skip(i) =~= s.skip(pat.len() + i));
            }
            lemma_replaced_keeps_absent(rest, pat, with, other);
            if k < with.len() {
                assert(with[k] == other[0]);
            } else {
                assert(r.skip(k) =~= replaced(rest, pat, with).skip(k - with.len()));
            }
        } else {
            let rest = s.skip(1);
            assert forall|i: int| 0 <= i <= rest.len() implies !(#[trigger] other.is_prefix_of(
                rest.skip(i),
            )) by {
                assert(rest.skip(i) =~= s.skip(1 + i));
            }
            lemma_replaced_keeps_absent(rest, pat, with, other);
            if k == 0 {
                assert(r.skip(0) =~= r);
                assert(other.skip(0) =~= other);
                lemma_replaced_prefix(s, pat, with, other, 0);
            } else {
                assert(r.skip(k) =~= replaced(rest, pat, with).skip(k - 1));
            }
        }
    }
}

/// A decimal number is not empty and begins with a digit.
pub proof fn lemma_decimal_digits(n: nat)
    ensures
        decimal(n).len() > 0,
        forall|i: int| 0 <= i < decimal(n).len() ==> '0' <= #[trigger] decimal(n)[i] <= '9',
    decreases n,
{
    if n >= 10 {
        lemma_decimal_digits(n / 10);
    }
}

/// Different numbers are written differently.
pub proof fn lemma_decimal_injective(a: nat, b: nat)
    requires
        decimal(a) == decimal(b),
    ensures
        a == b,
    decreases a,
{
    lemma_decimal_digits(a / 10);
    lemma_decimal_digits(b / 10);
    if a < 10 && b < 10 {
        assert(decimal(a)[0] == digit(a));
        assert(decimal(b)[0] == digit(b));
    } else if a < 10 {
        assert(decimal(b).len() >= 2);
    } else if b < 10 {
        assert(decimal(a).len() >= 2);
    } else {
        assert(decimal(a).last() == digit(a % 10));
        assert(decimal(b).last() == digit(b % 10));
        assert(a % 10 == b % 10);
        assert(decimal(a).drop_last() =~= decimal(a / 10));
        assert(decimal(b).drop_last() =~= decimal(b / 10));
        lemma_decimal_injective(a / 10, b / 10);
    }
}

/// How often `c` stands in `s`.
pub open spec fn count(s: Seq<char>, c: char) -> nat {
    s.filter(|d: char| d == c).len()
}

/// A text without `c` has it no time.
proof fn lemma_count_absent(s: Seq<char>, c: char)
    requires
        !s.contains(c),
    ensures
        count(s, c) == 0,
    decreases s.len(),
{
    reveal(Seq::filter);
    if s.len() > 0 {
        assert(s[s.len() - 1] != c);
        assert forall|i: int| 0 <= i < s.drop_last().len() implies s.drop_last()[i] != c by {
            assert(s[i] != c);
        }
        lemma_count_absent(s.drop_last(), c);
    }
}

/// Replacing one text without `c` by another keeps how often `c` occurs.
pub proof fn lemma_replaced_count(s: Seq<char>, pat: Seq<char>, with: Seq<char>, c: char)
    requires
        !pat.contains(c),
        !with.contains(c),
    ensures
        count(replaced(s, pat, with), c) == count(s, c),
    decreases s.len(),
{
    let pred = |d: char| d == c;
    if pat.len() > 0 && s.len() >= pat.len() {
        if pat.is_prefix_of(s) {
            let rest = s.skip(pat.len() as int);
            lemma_replaced_count(rest, pat, with, c);
            lemma_count_absent(pat, c);
            lemma_count_absent(with, c);
            assert(pat + rest =~= s);
            Seq::filter_distributes_over_add(pat, rest, pred);
            Seq::filter_distributes_over_add(with, replaced(rest, pat, with), pred);
        } else {
            let rest = s.skip(1);
            lemma_replaced_count(rest, pat, with, c);
            assert(seq![s[0]] + rest =~= s);
            Seq::filter_distributes_over_add(seq![s[0]], rest, pred);
            Seq::filter_distributes_over_add(seq![s[0]], replaced(rest, pat, with), pred);
        }
    }
}

/// Numbers are written in base ten: a number below ten is its digit, and each further digit
/// goes to the end.
pub proof fn law_decimal_digit_by_digit(m: nat, d: nat)
    requires
        d < 10,
    ensures
        decimal(d) == seq!["0123456789"@[d as int]],
        m > 0 ==> decimal(10 * m + d) == decimal(m).push("0123456789"@[d as int]),
{
    reveal_strlit("0123456789");
    if m > 0 {
        assert((10 * m + d) / 10 == m);
        assert((10 * m + d) % 10 == d);
    }
}

/// Replacing starts at the leftmost occurrence: what stands before it stays, the text is put
/// in its place, and the same goes on behind it.
pub proof fn law_leftmost_occurrence_is_replaced(
    s: Seq<char>,
    pat: Seq<char>,
    with: Seq<char>,
    i: int,
)
    requires
        pat.len() > 0,
        0 <= i <= s.len() - pat.len(),
        s.subrange(i, i + pat.len()) == pat,
        forall|j: int| 0 <= j < i ==> #[trigger] s.subrange(j, j + pat.len()) != pat,
    ensures
        replaced(s, pat, with) == s.take(i) + with + replaced(s.skip(i + pat.len()), pat, with),
    decreases i,
{
    if i == 0 {
        assert(pat.is_prefix_of(s));
        assert(s.take(0) + with =~= with);
    } else {
        let rest = s.skip(1);
        assert(s.subrange(0, 0int + pat.len()) != pat);
        assert(!pat.is_prefix_of(s));
        assert(rest.subrange(i - 1, i - 1 + pat.len()) =~= s.subrange(i, i + pat.len()));
        assert forall|j: int| 0 <= j < i - 1 implies #[trigger] rest.subrange(j, j + pat.len())
            != pat by {
            assert(rest.subrange(j, j + pat.len()) =~= s.subrange(j + 1, j + 1 + pat.len()));
        }
        law_leftmost_occurrence_is_replaced(rest, pat, with, i - 1);
        assert(rest.skip(i - 1 + pat.len()) =~= s.skip(i + pat.len()));
        assert(seq![s[0]] + (rest.take(i - 1) + with + replaced(s.skip(i + pat.len()), pat, with))
            =~= s.take(i) + with + replaced(s.skip(i + pat.len()), pat, with));
    }
}

/// A text in which the pattern stands nowhere stays as it is.
pub proof fn law_text_without_pattern_stays(s: Seq<char>, pat: Seq<char>, with: Seq<char>)
    requires
        pat.len() > 0,
        forall|j: int|
            0 <= j <= s.len() - pat.len() ==> #[trigger] s.subrange(j, j + pat.len()) != pat,
    ensures
        replaced(s, pat, with) == s,
{
    assert forall|i: int| 0 <= i <= s.len() implies !(#[trigger] pat.is_prefix_of(s.skip(i))) by {
        if pat.is_prefix_of(s.skip(i)) {
            assert(s.skip(i).subrange(0, pat.len() as int) =~= s.subrange(i, i + pat.len()));
        }
    }
    lemma_replaced_absent(s, pat, with);
}

/// A path leads on from its base with exactly one separator in between, but for the empty
/// base, which a relative path replaces.
pub proof fn law_joined_path(base: Seq<char>, rel: Seq<char>)
    ensures
        joined(Seq::empty(), rel) == rel,
        joined(base + seq!['/'], rel) == base + seq!['/'] + rel,
        base.len() > 0 && base[base.len() - 1] != '/' ==> joined(base, rel) == base + seq!['/'] + rel,
{
    assert(Seq::<char>::empty() + rel =~= rel);
    assert(base.push('/') =~= base + seq!['/']);
}

/// What replacing does at the start of a text.
pub proof fn lemma_replaced_step(s: Seq<char>, pat: Seq<char>, with: Seq<char>)
    requires
        pat.len() > 0,
        s.len() > 0,
    ensures
        pat.is_prefix_of(s) ==> replaced(s, pat, with) == with + replaced(
            s.skip(pat.len() as int),
            pat,
            with,
        ),
        !pat.is_prefix_of(s) ==> replaced(s, pat, with) == seq![s[0]] + replaced(
            s.skip(1),
            pat,
            with,
        ),
{
    if s.len() < pat.len() {
        assert(s =~= seq![s[0]] + s.skip(1));
    }
}

} // verus!
