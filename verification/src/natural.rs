//! Natural ordering of text: runs of digits are compared as integers, so
//! that "img2" comes before "img10"; everything else is compared character
//! by character.

use crate::text::{digit_value, is_digit};
use vstd::prelude::*;

verus! {

/// Where one text stands relative to another.
#[derive(Debug, Clone, Copy, PartialEq, Eq, Structural)]
pub enum Precedence {
    Before,
    Same,
    After,
}

/// The opposite placement.
pub open spec fn flip(p: Precedence) -> Precedence {
    match p {
        Precedence::Before => Precedence::After,
        Precedence::Same => Precedence::Same,
        Precedence::After => Precedence::Before,
    }
}

/// How many digits `s` starts with.
pub open spec fn digits_len(s: Seq<char>) -> nat
    decreases s.len(),
{
    if s.len() > 0 && is_digit(s[0]) {
        1 + digits_len(s.skip(1))
    } else {
        0
    }
}

/// Whether `s` consists of digits only.
pub open spec fn all_digits(s: Seq<char>) -> bool {
    forall|i: int| 0 <= i < s.len() ==> is_digit(#[trigger] s[i])
}

/// The number that a run of digits writes, most significant digit first.
pub open spec fn digits_value(s: Seq<char>) -> nat
    decreases s.len(),
{
    if s.len() == 0 {
        0
    } else {
        digits_value(s.drop_last()) * 10 + digit_value(s.last())
    }
}

/// Two runs of digits by the numbers they write; runs that write the same
/// number by their length, the shorter first.
pub open spec fn run_order(x: Seq<char>, y: Seq<char>) -> Precedence {
    if digits_value(x) < digits_value(y) {
        Precedence::Before
    } else if digits_value(x) > digits_value(y) {
        Precedence::After
    } else if x.len() < y.len() {
        Precedence::Before
    } else if x.len() > y.len() {
        Precedence::After
    } else {
        Precedence::Same
    }
}

/// The digits that `s` starts with are no more than `s` holds, and they
/// are digits; what follows them is no digit.
pub proof fn lemma_digits_len(s: Seq<char>)
    ensures
        digits_len(s) <= s.len(),
        all_digits(s.take(digits_len(s) as int)),
        digits_len(s) < s.len() ==> !is_digit(s[digits_len(s) as int]),
        s.len() > 0 && is_digit(s[0]) ==> digits_len(s) >= 1,
    decreases s.len(),
{
    if s.len() > 0 && is_digit(s[0]) {
        let t = s.skip(1);
        lemma_digits_len(t);
        let n = digits_len(s) as int;
        assert forall|i: int| 0 <= i < s.take(n).len() implies is_digit(
            #[trigger] s.take(n)[i],
        ) by {
            if i > 0 {
                assert(s.take(n)[i] == t.take(n - 1)[i - 1]);
            }
        }
        if n < s.len() {
            assert(s[n] == t[n - 1]);
        }
    }
}

/// The natural order of two texts. Where both start with a digit, their
/// leading runs of digits are compared by `run_order`; otherwise their
/// first characters are compared. Equal beginnings hand the decision to
/// what follows them. A text that ends first comes first.
pub open spec fn natural_order(a: Seq<char>, b: Seq<char>) -> Precedence
    decreases a.len(),
{
    if a.len() == 0 {
        if b.len() == 0 {
            Precedence::Same
        } else {
            Precedence::Before
        }
    } else if b.len() == 0 {
        Precedence::After
    } else if is_digit(a[0]) && is_digit(b[0]) {
        let na = digits_len(a) as int;
        let nb = digits_len(b) as int;
        let runs = run_order(a.take(na), b.take(nb));
        if runs != Precedence::Same {
            runs
        } else {
            proof {
                lemma_digits_len(a);
            }
            natural_order(a.skip(na), b.skip(nb))
        }
    } else if a[0] < b[0] {
        Precedence::Before
    } else if a[0] > b[0] {
        Precedence::After
    } else {
        natural_order(a.skip(1), b.skip(1))
    }
}

/// `a` comes strictly before `b` in the natural order.
pub open spec fn natural_before(a: Seq<char>, b: Seq<char>) -> bool {
    natural_order(a, b) == Precedence::Before
}

/// Ten to the power `n`.
pub open spec fn pow10(n: nat) -> nat
    decreases n,
{
    if n == 0 {
        1
    } else {
        10 * pow10((n - 1) as nat)
    }
}

proof fn lemma_pow10_grows(m: nat, n: nat)
    requires
        m <= n,
    ensures
        pow10(m) <= pow10(n),
        pow10(m) >= 1,
    decreases n,
{
    if m < n {
        lemma_pow10_grows(m, (n - 1) as nat);
    } else if n > 0 {
        lemma_pow10_grows((m - 1) as nat, (n - 1) as nat);
    }
}

/// A run of `n` digits writes a number below ten to the `n`.
proof fn lemma_value_below(s: Seq<char>)
    requires
        all_digits(s),
    ensures
        digits_value(s) < pow10(s.len()),
    decreases s.len(),
{
    if s.len() > 0 {
        let front = s.drop_last();
        assert forall|i: int| 0 <= i < front.len() implies is_digit(#[trigger] front[i]) by {
            assert(front[i] == s[i]);
        }
        lemma_value_below(front);
        assert(is_digit(s[s.len() - 1]));
    }
}

/// A run that starts with a non-zero digit writes a number of full length.
proof fn lemma_value_at_least(s: Seq<char>)
    requires
        all_digits(s),
        s.len() > 0,
        s[0] != '0',
    ensures
        digits_value(s) >= pow10((s.len() - 1) as nat),
    decreases s.len(),
{
    let front = s.drop_last();
    assert(is_digit(s[s.len() - 1]));
    if s.len() == 1 {
        assert(front.len() == 0);
        assert(is_digit(s[0]));
    } else {
        assert forall|i: int| 0 <= i < front.len() implies is_digit(#[trigger] front[i]) by {
            assert(front[i] == s[i]);
        }
        assert(front[0] == s[0]);
        lemma_value_at_least(front);
    }
}

/// A leading zero does not change the number.
proof fn lemma_leading_zero(s: Seq<char>)
    requires
        s.len() > 0,
        s[0] == '0',
    ensures
        digits_value(s) == digits_value(s.skip(1)),
    decreases s.len(),
{
    if s.len() == 1 {
        assert(digits_value(s.drop_last()) == 0);
        assert(digits_value(s.skip(1)) == 0);
    } else {
        let front = s.drop_last();
        assert(front[0] == s[0]);
        lemma_leading_zero(front);
        assert(s.skip(1).drop_last() =~= front.skip(1));
        assert(s.skip(1).last() == s.last());
    }
}

/// Of two runs of the same length, the one with the smaller digit at the
/// first place where they differ writes the smaller number.
proof fn lemma_first_difference(s: Seq<char>, t: Seq<char>, k: int)
    requires
        all_digits(s),
        all_digits(t),
        s.len() == t.len(),
        0 <= k < s.len(),
        forall|i: int| 0 <= i < k ==> s[i] == t[i],
        s[k] < t[k],
    ensures
        digits_value(s) < digits_value(t),
    decreases s.len(),
{
    let sf = s.drop_last();
    let tf = t.drop_last();
    assert(is_digit(s[s.len() - 1]));
    assert(is_digit(t[t.len() - 1]));
    if k == s.len() - 1 {
        assert(sf =~= tf);
    } else {
        assert forall|i: int| 0 <= i < sf.len() implies is_digit(#[trigger] sf[i]) by {
            assert(sf[i] == s[i]);
        }
        assert forall|i: int| 0 <= i < tf.len() implies is_digit(#[trigger] tf[i]) by {
            assert(tf[i] == t[i]);
        }
        assert forall|i: int| 0 <= i < k implies sf[i] == tf[i] by {
            assert(sf[i] == s[i]);
            assert(tf[i] == t[i]);
        }
        assert(sf[k] == s[k]);
        assert(tf[k] == t[k]);
        lemma_first_difference(sf, tf, k);
    }
}

/// `digits_len` of a text whose first `n` characters are digits and whose
/// next character, if there is one, is none.
proof fn lemma_digits_len_is(s: Seq<char>, n: int)
    requires
        0 <= n <= s.len(),
        forall|i: int| 0 <= i < n ==> is_digit(#[trigger] s[i]),
        n < s.len() ==> !is_digit(s[n]),
    ensures
        digits_len(s) == n,
    decreases n,
{
    if n > 0 {
        let t = s.skip(1);
        assert forall|i: int| 0 <= i < n - 1 implies is_digit(#[trigger] t[i]) by {
            assert(t[i] == s[i + 1]);
        }
        if n < s.len() {
            assert(t[n - 1] == s[n]);
        }
        lemma_digits_len_is(t, n - 1);
    }
}

/// Two runs of digits of one length that write one number are the same
/// run.
proof fn lemma_equal_runs(x: Seq<char>, y: Seq<char>)
    requires
        all_digits(x),
        all_digits(y),
        x.len() == y.len(),
        digits_value(x) == digits_value(y),
    ensures
        x == y,
    decreases x.len(),
{
    if x.len() > 0 {
        let xf = x.drop_last();
        let yf = y.drop_last();
        assert(is_digit(x[x.len() - 1]));
        assert(is_digit(y[y.len() - 1]));
        assert forall|i: int| 0 <= i < xf.len() implies is_digit(#[trigger] xf[i]) by {
            assert(xf[i] == x[i]);
        }
        assert forall|i: int| 0 <= i < yf.len() implies is_digit(#[trigger] yf[i]) by {
            assert(yf[i] == y[i]);
        }
        lemma_equal_runs(xf, yf);
        assert(x =~= xf.push(x.last()));
        assert(y =~= yf.push(y.last()));
    } else {
        assert(x =~= y);
    }
}

/// The natural order places a text at the same place as another exactly
/// when the two are the same text.
pub proof fn lemma_natural_same(a: Seq<char>, b: Seq<char>)
    ensures
        natural_order(a, b) == Precedence::Same <==> a == b,
    decreases a.len(),
{
    if a.len() == 0 || b.len() == 0 {
        if a.len() == 0 && b.len() == 0 {
            assert(a =~= b);
        }
    } else if is_digit(a[0]) && is_digit(b[0]) {
        let na = digits_len(a) as int;
        let nb = digits_len(b) as int;
        lemma_digits_len(a);
        lemma_digits_len(b);
        lemma_natural_same(a.skip(na), b.skip(nb));
        if run_order(a.take(na), b.take(nb)) == Precedence::Same {
            lemma_equal_runs(a.take(na), b.take(nb));
            if a.skip(na) == b.skip(nb) {
                assert(a =~= a.take(na) + a.skip(na));
                assert(b =~= b.take(nb) + b.skip(nb));
            }
        }
    } else {
        lemma_natural_same(a.skip(1), b.skip(1));
        if a[0] == b[0] && a.skip(1) == b.skip(1) {
            assert(a =~= seq![a[0]] + a.skip(1));
            assert(b =~= seq![b[0]] + b.skip(1));
        }
    }
}

/// Looking from the other side turns the placement round.
pub proof fn lemma_natural_flip(a: Seq<char>, b: Seq<char>)
    ensures
        natural_order(b, a) == flip(natural_order(a, b)),
    decreases a.len(),
{
    if a.len() == 0 || b.len() == 0 {
    } else if is_digit(a[0]) && is_digit(b[0]) {
        let na = digits_len(a) as int;
        let nb = digits_len(b) as int;
        lemma_digits_len(a);
        lemma_natural_flip(a.skip(na), b.skip(nb));
    } else {
        lemma_natural_flip(a.skip(1), b.skip(1));
    }
}

/// The natural order is transitive: what does not come after its
/// successor's predecessor does not come after the successor, and comes
/// strictly before it as soon as one of the two steps is strict.
pub proof fn lemma_natural_transitive(a: Seq<char>, b: Seq<char>, c: Seq<char>)
    requires
        natural_order(a, b) != Precedence::After,
        natural_order(b, c) != Precedence::After,
    ensures
        natural_order(a, c) != Precedence::After,
        natural_order(a, b) == Precedence::Before || natural_order(b, c) == Precedence::Before
            ==> natural_order(a, c) == Precedence::Before,
    decreases a.len(),
{
    if a.len() == 0 || b.len() == 0 || c.len() == 0 {
    } else if is_digit(a[0]) && is_digit(b[0]) && is_digit(c[0]) {
        let na = digits_len(a) as int;
        let nb = digits_len(b) as int;
        let nc = digits_len(c) as int;
        lemma_digits_len(a);
        if run_order(a.take(na), b.take(nb)) == Precedence::Same && run_order(
            b.take(nb),
            c.take(nc),
        ) == Precedence::Same {
            lemma_natural_transitive(a.skip(na), b.skip(nb), c.skip(nc));
        }
    } else if !is_digit(a[0]) && !is_digit(b[0]) && !is_digit(c[0]) {
        if a[0] == b[0] && b[0] == c[0] {
            lemma_natural_transitive(a.skip(1), b.skip(1), c.skip(1));
        }
    } else {
    }
}

fn is_digit_char(c: char) -> (r: bool)
    ensures
        r == is_digit(c),
{
    '0' <= c && c <= '9'
}

/// The first place at or after `from` that holds no digit.
fn digits_end(s: &Vec<char>, from: usize) -> (end: usize)
    requires
        from <= s.len(),
    ensures
        from <= end <= s.len(),
        digits_len(s@.skip(from as int)) == end - from,
        all_digits(s@.subrange(from as int, end as int)),
{
    let mut end: usize = from;
    while end < s.len() && is_digit_char(s[end])
        invariant
            from <= end <= s.len(),
            forall|i: int| from <= i < end ==> is_digit(#[trigger] s@[i]),
        decreases s.len() - end,
    {
        end = end + 1;
    }
    proof {
        let t = s@.skip(from as int);
        assert forall|i: int| 0 <= i < end - from implies is_digit(#[trigger] t[i]) by {
            assert(t[i] == s@[from + i]);
        }
        lemma_digits_len_is(t, end - from);
    }
    end
}

/// The first place in `from..to` that holds no zero, or `to`.
fn zeros_end(s: &Vec<char>, from: usize, to: usize) -> (z: usize)
    requires
        from <= to <= s.len(),
    ensures
        from <= z <= to,
        digits_value(s@.subrange(from as int, to as int)) == digits_value(
            s@.subrange(z as int, to as int),
        ),
        z < to ==> s@[z as int] != '0',
{
    let mut z: usize = from;
    while z < to && s[z] == '0'
        invariant
            from <= z <= to <= s.len(),
            digits_value(s@.subrange(from as int, to as int)) == digits_value(
                s@.subrange(z as int, to as int),
            ),
        decreases to - z,
    {
        proof {
            let run = s@.subrange(z as int, to as int);
            lemma_leading_zero(run);
            assert(run.skip(1) =~= s@.subrange(z + 1, to as int));
        }
        z = z + 1;
    }
    z
}

/// Compares the runs of digits `a[i..ie]` and `b[j..je]` as `run_order`
/// says, without computing the numbers they write.
fn digit_run_order(a: &Vec<char>, i: usize, ie: usize, b: &Vec<char>, j: usize, je: usize) -> (r:
    Precedence)
    requires
        i <= ie <= a.len(),
        j <= je <= b.len(),
        all_digits(a@.subrange(i as int, ie as int)),
        all_digits(b@.subrange(j as int, je as int)),
    ensures
        r == run_order(a@.subrange(i as int, ie as int), b@.subrange(j as int, je as int)),
{
    let zi = zeros_end(a, i, ie);
    let zj = zeros_end(b, j, je);
    let ghost x = a@.subrange(zi as int, ie as int);
    let ghost y = b@.subrange(zj as int, je as int);
    proof {
        assert forall|k: int| 0 <= k < x.len() implies is_digit(#[trigger] x[k]) by {
            assert(x[k] == a@.subrange(i as int, ie as int)[k + zi - i]);
        }
        assert forall|k: int| 0 <= k < y.len() implies is_digit(#[trigger] y[k]) by {
            assert(y[k] == b@.subrange(j as int, je as int)[k + zj - j]);
        }
        lemma_value_below(x);
        lemma_value_below(y);
    }
    let la: usize = ie - zi;
    let lb: usize = je - zj;
    if la < lb {
        proof {
            lemma_value_at_least(y);
            lemma_pow10_grows(la as nat, (lb - 1) as nat);
        }
        return Precedence::Before;
    }
    if la > lb {
        proof {
            lemma_value_at_least(x);
            lemma_pow10_grows(lb as nat, (la - 1) as nat);
        }
        return Precedence::After;
    }
    let mut k: usize = 0;
    while k < la
        invariant
            k <= la,
            la == ie - zi,
            la == je - zj,
            zi <= ie <= a.len(),
            zj <= je <= b.len(),
            x == a@.subrange(zi as int, ie as int),
            y == b@.subrange(zj as int, je as int),
            all_digits(x),
            all_digits(y),
            digits_value(a@.subrange(i as int, ie as int)) == digits_value(x),
            digits_value(b@.subrange(j as int, je as int)) == digits_value(y),
            forall|m: int| 0 <= m < k ==> x[m] == y[m],
        decreases la - k,
    {
        let ca = a[zi + k];
        let cb = b[zj + k];
        if ca < cb {
            proof {
                lemma_first_difference(x, y, k as int);
            }
            return Precedence::Before;
        }
        if ca > cb {
            proof {
                lemma_first_difference(y, x, k as int);
            }
            return Precedence::After;
        }
        k = k + 1;
    }
    assert(x =~= y);
    let na: usize = ie - i;
    let nb: usize = je - j;
    if na < nb {
        Precedence::Before
    } else if na > nb {
        Precedence::After
    } else {
        Precedence::Same
    }
}

/// Places `a` relative to `b` in the natural order.
pub fn natural_precedence(a: &Vec<char>, b: &Vec<char>) -> (r: Precedence)
    ensures
        r == natural_order(a@, b@),
{
    let mut i: usize = 0;
    let mut j: usize = 0;
    assert(a@.skip(0) =~= a@);
    assert(b@.skip(0) =~= b@);
    loop
        invariant
            i <= a.len(),
            j <= b.len(),
            natural_order(a@, b@) == natural_order(a@.skip(i as int), b@.skip(j as int)),
        decreases a.len() - i,
    {
        let ghost x = a@.skip(i as int);
        let ghost y = b@.skip(j as int);
        if i == a.len() {
            if j == b.len() {
                return Precedence::Same;
            } else {
                return Precedence::Before;
            }
        }
        if j == b.len() {
            return Precedence::After;
        }
        let ca = a[i];
        let cb = b[j];
        assert(x[0] == ca && y[0] == cb);
        if is_digit_char(ca) && is_digit_char(cb) {
            let ie = digits_end(a, i);
            let je = digits_end(b, j);
            proof {
                lemma_digits_len(x);
                assert(x.take(ie - i) =~= a@.subrange(i as int, ie as int));
                assert(y.take(je - j) =~= b@.subrange(j as int, je as int));
                assert(x.skip(ie - i) =~= a@.skip(ie as int));
                assert(y.skip(je - j) =~= b@.skip(je as int));
            }
            let runs = digit_run_order(a, i, ie, b, j, je);
            match runs {
                Precedence::Same => {
                    i = ie;
                    j = je;
                },
                Precedence::Before => {
                    return Precedence::Before;
                },
                Precedence::After => {
                    return Precedence::After;
                },
            }
        } else if ca < cb {
            return Precedence::Before;
        } else if ca > cb {
            return Precedence::After;
        } else {
            proof {
                assert(x.skip(1) =~= a@.skip(i + 1));
                assert(y.skip(1) =~= b@.skip(j + 1));
            }
            i = i + 1;
            j = j + 1;
        }
    }
}

} // verus!
