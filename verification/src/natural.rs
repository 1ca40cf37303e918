//! Natural (human) string ordering: runs of decimal digits compare by
//! numeric value, all other characters by code point. The ordering is
//! specified by tokenizing a string into digit runs and single
//! characters and comparing the token sequences lexicographically.

use vstd::prelude::*;
use crate::text::{is_digit_char, digit_val, digits_val};

verus! {

/// One unit of natural comparison: a maximal digit run, by numeric
/// value, or a single non-digit character, by code point.
pub enum NatTok {
    Num(nat),
    Sym(int),
}

pub open spec fn is_digit_code(n: int) -> bool {
    '0' as int <= n <= '9' as int
}

/// A `Sym` token never holds a digit code; `tokens` only produces such
/// sequences.
pub open spec fn wf_tok(t: NatTok) -> bool {
    match t {
        NatTok::Num(_) => true,
        NatTok::Sym(code) => !is_digit_code(code),
    }
}

pub open spec fn wf_toks(s: Seq<NatTok>) -> bool {
    forall|i: int| 0 <= i < s.len() ==> wf_tok(#[trigger] s[i])
}

/// Length of the maximal digit prefix of `s`.
pub open spec fn digit_run_len(s: Seq<char>) -> nat
    decreases s.len(),
{
    if s.len() == 0 || !is_digit_char(s[0]) {
        0
    } else {
        1 + digit_run_len(s.drop_first())
    }
}

pub proof fn lemma_digit_run_len_le(s: Seq<char>)
    ensures
        digit_run_len(s) <= s.len(),
        forall|j: int| 0 <= j < digit_run_len(s) ==> is_digit_char(#[trigger] s[j]),
        digit_run_len(s) < s.len() ==> !is_digit_char(s[digit_run_len(s) as int]),
    decreases s.len(),
{
    if s.len() > 0 && is_digit_char(s[0]) {
        lemma_digit_run_len_le(s.drop_first());
        let k = digit_run_len(s) as int;
        assert(k == 1 + digit_run_len(s.drop_first()));
        assert forall|j: int| 0 <= j < k implies is_digit_char(#[trigger] s[j]) by {
            if j >= 1 {
                assert(is_digit_char(s.drop_first()[j - 1]));
                assert(s.drop_first()[j - 1] == s[j]);
            }
        }
        if k < s.len() {
            assert(!is_digit_char(s.drop_first()[k - 1]));
            assert(s.drop_first()[k - 1] == s[k]);
        }
    }
}

/// A scan that saw digits up to `k` and a non-digit (or the end) at `k`
/// has found the maximal digit prefix.
pub proof fn lemma_digit_run_len_is(s: Seq<char>, k: nat)
    requires
        k <= s.len(),
        forall|j: int| 0 <= j < k ==> is_digit_char(#[trigger] s[j]),
        k < s.len() ==> !is_digit_char(s[k as int]),
    ensures
        digit_run_len(s) == k,
    decreases s.len(),
{
    if s.len() == 0 || !is_digit_char(s[0]) {
    } else {
        assert(k >= 1) by {
            if k == 0 {
                assert(!is_digit_char(s[0]));
            }
        }
        lemma_digit_run_len_is(s.drop_first(), (k - 1) as nat);
    }
}

/// The token sequence of a string.
pub open spec fn tokens(s: Seq<char>) -> Seq<NatTok>
    decreases s.len(),
{
    if s.len() == 0 {
        Seq::empty()
    } else if is_digit_char(s[0]) {
        proof {
            lemma_digit_run_len_le(s);
        }
        seq![NatTok::Num(digits_val(s.take(digit_run_len(s) as int)))] + tokens(
            s.skip(digit_run_len(s) as int),
        )
    } else {
        seq![NatTok::Sym(s[0] as int)] + tokens(s.drop_first())
    }
}

pub proof fn lemma_tokens_wf(s: Seq<char>)
    ensures
        wf_toks(tokens(s)),
    decreases s.len(),
{
    if s.len() == 0 {
    } else if is_digit_char(s[0]) {
        let k = digit_run_len(s) as int;
        lemma_digit_run_len_le(s);
        lemma_tokens_wf(s.skip(k));
        let t = tokens(s);
        assert(t =~= seq![NatTok::Num(digits_val(s.take(k)))] + tokens(s.skip(k)));
        assert forall|i: int| 0 <= i < t.len() implies wf_tok(#[trigger] t[i]) by {
            if i >= 1 {
                assert(t[i] == tokens(s.skip(k))[i - 1]);
            }
        }
    } else {
        lemma_tokens_wf(s.drop_first());
        let t = tokens(s);
        assert(t =~= seq![NatTok::Sym(s[0] as int)] + tokens(s.drop_first()));
        assert(!is_digit_code(s[0] as int));
        assert forall|i: int| 0 <= i < t.len() implies wf_tok(#[trigger] t[i]) by {
            if i >= 1 {
                assert(t[i] == tokens(s.drop_first())[i - 1]);
            }
        }
    }
}

/// Three-way comparison of two tokens: digit runs by value, characters
/// by code point; a run against a non-digit character compares as any
/// of the run's digits would against that character.
pub open spec fn tok_cmp(a: NatTok, b: NatTok) -> int {
    match (a, b) {
        (NatTok::Num(v), NatTok::Num(w)) => if v < w {
            -1
        } else if v == w {
            0
        } else {
            1
        },
        (NatTok::Sym(c), NatTok::Sym(d)) => if c < d {
            -1
        } else if c == d {
            0
        } else {
            1
        },
        (NatTok::Num(_), NatTok::Sym(d)) => if ('9' as int) < d {
            -1
        } else {
            1
        },
        (NatTok::Sym(c), NatTok::Num(_)) => if c < ('0' as int) {
            -1
        } else {
            1
        },
    }
}

pub proof fn lemma_tok_cmp_antisym(a: NatTok, b: NatTok)
    requires
        wf_tok(a),
        wf_tok(b),
    ensures
        tok_cmp(a, b) == -tok_cmp(b, a),
        tok_cmp(a, b) == 0 ==> a == b,
{
}

pub proof fn lemma_tok_cmp_trans(a: NatTok, b: NatTok, c: NatTok)
    requires
        wf_tok(a),
        wf_tok(b),
        wf_tok(c),
        tok_cmp(a, b) < 0,
        tok_cmp(b, c) < 0,
    ensures
        tok_cmp(a, c) < 0,
{
}

/// Lexicographic three-way comparison of token sequences.
pub open spec fn toks_cmp(a: Seq<NatTok>, b: Seq<NatTok>) -> int
    decreases a.len(),
{
    if a.len() == 0 && b.len() == 0 {
        0
    } else if a.len() == 0 {
        -1
    } else if b.len() == 0 {
        1
    } else if tok_cmp(a[0], b[0]) != 0 {
        tok_cmp(a[0], b[0])
    } else {
        toks_cmp(a.drop_first(), b.drop_first())
    }
}

pub proof fn lemma_toks_cmp_range(a: Seq<NatTok>, b: Seq<NatTok>)
    ensures
        -1 <= toks_cmp(a, b) <= 1,
    decreases a.len(),
{
    if a.len() > 0 && b.len() > 0 && tok_cmp(a[0], b[0]) == 0 {
        lemma_toks_cmp_range(a.drop_first(), b.drop_first());
    }
}

pub proof fn lemma_wf_toks_drop_first(a: Seq<NatTok>)
    requires
        wf_toks(a),
        a.len() > 0,
    ensures
        wf_toks(a.drop_first()),
{
    assert forall|i: int| 0 <= i < a.drop_first().len() implies wf_tok(
        #[trigger] a.drop_first()[i],
    ) by {
        assert(a.drop_first()[i] == a[i + 1]);
    }
}

pub proof fn lemma_toks_cmp_antisym(a: Seq<NatTok>, b: Seq<NatTok>)
    requires
        wf_toks(a),
        wf_toks(b),
    ensures
        toks_cmp(a, b) == -toks_cmp(b, a),
        toks_cmp(a, b) == 0 ==> a == b,
    decreases a.len(),
{
    if a.len() > 0 && b.len() > 0 {
        lemma_tok_cmp_antisym(a[0], b[0]);
        if tok_cmp(a[0], b[0]) == 0 {
            lemma_wf_toks_drop_first(a);
            lemma_wf_toks_drop_first(b);
            lemma_toks_cmp_antisym(a.drop_first(), b.drop_first());
            if toks_cmp(a, b) == 0 {
                assert(a =~= seq![a[0]] + a.drop_first());
                assert(b =~= seq![b[0]] + b.drop_first());
            }
        }
    }
}

pub proof fn lemma_toks_cmp_trans(a: Seq<NatTok>, b: Seq<NatTok>, c: Seq<NatTok>)
    requires
        wf_toks(a),
        wf_toks(b),
        wf_toks(c),
        toks_cmp(a, b) <= 0,
        toks_cmp(b, c) <= 0,
    ensures
        toks_cmp(a, c) <= 0,
        toks_cmp(a, b) == 0 && toks_cmp(b, c) == 0 ==> toks_cmp(a, c) == 0,
        toks_cmp(a, b) < 0 || toks_cmp(b, c) < 0 ==> toks_cmp(a, c) < 0,
    decreases a.len() + b.len() + c.len(),
{
    if a.len() == 0 {
        lemma_toks_cmp_range(a, c);
        if toks_cmp(a, b) == 0 && toks_cmp(b, c) == 0 {
            lemma_toks_cmp_antisym(a, b);
            lemma_toks_cmp_antisym(b, c);
        }
    } else {
        // a nonempty, so b and c are nonempty as well
        assert(b.len() > 0);
        assert(c.len() > 0);
        lemma_tok_cmp_antisym(a[0], b[0]);
        lemma_tok_cmp_antisym(b[0], c[0]);
        lemma_tok_cmp_antisym(a[0], c[0]);
        lemma_wf_toks_drop_first(a);
        lemma_wf_toks_drop_first(b);
        lemma_wf_toks_drop_first(c);
        if tok_cmp(a[0], b[0]) == 0 && tok_cmp(b[0], c[0]) == 0 {
            lemma_toks_cmp_trans(a.drop_first(), b.drop_first(), c.drop_first());
        } else if tok_cmp(a[0], b[0]) == 0 {
            // a[0] == b[0], so a against c decides at the head as b against c does
        } else if tok_cmp(b[0], c[0]) == 0 {
            // b[0] == c[0]
        } else {
            lemma_tok_cmp_trans(a[0], b[0], c[0]);
        }
    }
}

/// Natural three-way comparison of two strings.
pub open spec fn nat_cmp(a: Seq<char>, b: Seq<char>) -> int {
    toks_cmp(tokens(a), tokens(b))
}

pub proof fn lemma_nat_cmp_antisym(a: Seq<char>, b: Seq<char>)
    ensures
        nat_cmp(a, b) == -nat_cmp(b, a),
{
    lemma_tokens_wf(a);
    lemma_tokens_wf(b);
    lemma_toks_cmp_antisym(tokens(a), tokens(b));
}

pub proof fn lemma_nat_cmp_trans(a: Seq<char>, b: Seq<char>, c: Seq<char>)
    requires
        nat_cmp(a, b) <= 0,
        nat_cmp(b, c) <= 0,
    ensures
        nat_cmp(a, c) <= 0,
        nat_cmp(a, b) == 0 && nat_cmp(b, c) == 0 ==> nat_cmp(a, c) == 0,
        nat_cmp(a, b) < 0 || nat_cmp(b, c) < 0 ==> nat_cmp(a, c) < 0,
{
    lemma_tokens_wf(a);
    lemma_tokens_wf(b);
    lemma_tokens_wf(c);
    lemma_toks_cmp_trans(tokens(a), tokens(b), tokens(c));
}

/// Plain lexicographic three-way comparison by code point, used to
/// break ties deterministically on the full path.
pub open spec fn lex_cmp(a: Seq<char>, b: Seq<char>) -> int
    decreases a.len(),
{
    if a.len() == 0 && b.len() == 0 {
        0
    } else if a.len() == 0 {
        -1
    } else if b.len() == 0 {
        1
    } else if a[0] != b[0] {
        if a[0] < b[0] {
            -1
        } else {
            1
        }
    } else {
        lex_cmp(a.drop_first(), b.drop_first())
    }
}

pub proof fn lemma_lex_cmp_antisym(a: Seq<char>, b: Seq<char>)
    ensures
        lex_cmp(a, b) == -lex_cmp(b, a),
        lex_cmp(a, b) == 0 ==> a == b,
    decreases a.len(),
{
    if a.len() > 0 && b.len() > 0 && a[0] == b[0] {
        lemma_lex_cmp_antisym(a.drop_first(), b.drop_first());
        if lex_cmp(a, b) == 0 {
            assert(a =~= seq![a[0]] + a.drop_first());
            assert(b =~= seq![b[0]] + b.drop_first());
        }
    }
}

pub proof fn lemma_lex_cmp_trans(a: Seq<char>, b: Seq<char>, c: Seq<char>)
    requires
        lex_cmp(a, b) <= 0,
        lex_cmp(b, c) <= 0,
    ensures
        lex_cmp(a, c) <= 0,
        lex_cmp(a, b) < 0 || lex_cmp(b, c) < 0 ==> lex_cmp(a, c) < 0,
    decreases a.len() + b.len() + c.len(),
{
    if a.len() == 0 {
        if c.len() > 0 {
        } else {
            lemma_lex_cmp_antisym(a, c);
        }
    } else {
        assert(b.len() > 0);
        assert(c.len() > 0);
        if a[0] == b[0] && b[0] == c[0] {
            lemma_lex_cmp_trans(a.drop_first(), b.drop_first(), c.drop_first());
        }
    }
}

} // verus!

verus! {

pub open spec fn all_digits(s: Seq<char>) -> bool {
    forall|i: int| 0 <= i < s.len() ==> is_digit_char(#[trigger] s[i])
}

pub open spec fn pow10(n: nat) -> nat
    decreases n,
{
    if n == 0 {
        1
    } else {
        10 * pow10((n - 1) as nat)
    }
}

pub proof fn lemma_pow10_pos(n: nat)
    ensures
        pow10(n) >= 1,
    decreases n,
{
    if n > 0 {
        lemma_pow10_pos((n - 1) as nat);
    }
}

pub proof fn lemma_pow10_mono(m: nat, n: nat)
    requires
        m <= n,
    ensures
        pow10(m) <= pow10(n),
    decreases n,
{
    if m < n {
        lemma_pow10_mono(m, (n - 1) as nat);
        lemma_pow10_pos((n - 1) as nat);
    }
}

/// A sequence of digits is worth less than one followed by that many zeros.
pub proof fn lemma_digits_val_bound(s: Seq<char>)
    requires
        all_digits(s),
    ensures
        digits_val(s) < pow10(s.len()),
    decreases s.len(),
{
    if s.len() > 0 {
        assert(all_digits(s.drop_last())) by {
            assert(forall|i: int|
                0 <= i < s.drop_last().len() ==> s.drop_last()[i] == #[trigger] s[i]);
        }
        lemma_digits_val_bound(s.drop_last());
        assert(is_digit_char(s.last()));
        assert(digit_val(s.last()) <= 9);
    }
}

/// A digit sequence that starts with a nonzero digit is worth at least
/// one followed by one fewer zeros.
pub proof fn lemma_digits_val_lower(s: Seq<char>)
    requires
        all_digits(s),
        s.len() >= 1,
        s[0] != '0',
    ensures
        digits_val(s) >= pow10((s.len() - 1) as nat),
    decreases s.len(),
{
    if s.len() == 1 {
        assert(is_digit_char(s[0]));
        assert(digit_val(s[0]) >= 1);
        assert(digits_val(s) == digits_val(s.drop_last()) * 10 + digit_val(s.last()));
    } else {
        assert(all_digits(s.drop_last())) by {
            assert(forall|i: int|
                0 <= i < s.drop_last().len() ==> s.drop_last()[i] == #[trigger] s[i]);
        }
        assert(s.drop_last()[0] == s[0]);
        lemma_digits_val_lower(s.drop_last());
        assert(pow10((s.len() - 1) as nat) == 10 * pow10((s.len() - 2) as nat));
    }
}

/// Leading zeros do not change the value of a digit sequence.
pub proof fn lemma_digits_val_strip(s: Seq<char>, k: nat)
    requires
        k <= s.len(),
        forall|j: int| 0 <= j < k ==> #[trigger] s[j] == '0',
    ensures
        digits_val(s) == digits_val(s.skip(k as int)),
    decreases s.len(),
{
    if k > 0 && s.len() > 0 {
        // value of s equals value of s.drop_first() since s[0] == '0'
        lemma_digits_val_drop_zero(s);
        assert(forall|j: int|
            0 <= j < k - 1 ==> #[trigger] s.drop_first()[j] == s[j + 1] && s.drop_first()[j]
                == '0');
        lemma_digits_val_strip(s.drop_first(), (k - 1) as nat);
        assert(s.drop_first().skip(k as int - 1) =~= s.skip(k as int));
    } else {
        assert(s.skip(k as int) =~= s);
    }
}

/// Dropping one leading zero keeps the value.
pub proof fn lemma_digits_val_drop_zero(s: Seq<char>)
    requires
        s.len() >= 1,
        s[0] == '0',
    ensures
        digits_val(s) == digits_val(s.drop_first()),
    decreases s.len(),
{
    if s.len() == 1 {
        assert(digits_val(s) == digits_val(s.drop_last()) * 10 + digit_val(s.last()));
        assert(s.drop_first() =~= Seq::<char>::empty());
    } else {
        assert(s.drop_last()[0] == s[0]);
        lemma_digits_val_drop_zero(s.drop_last());
        assert(s.drop_last().drop_first() =~= s.drop_first().drop_last());
        assert(s.drop_first().last() == s.last());
        assert(digits_val(s) == digits_val(s.drop_last()) * 10 + digit_val(s.last()));
        assert(digits_val(s.drop_first()) == digits_val(s.drop_first().drop_last()) * 10
            + digit_val(s.drop_first().last()));
    }
}

/// Splitting a digit sequence splits its value positionally.
pub proof fn lemma_digits_val_concat(u: Seq<char>, v: Seq<char>)
    ensures
        digits_val(u + v) == digits_val(u) * pow10(v.len()) + digits_val(v),
    decreases v.len(),
{
    if v.len() == 0 {
        assert(u + v =~= u);
        assert(pow10(0) == 1);
        assert(digits_val(v) == 0);
        assert(digits_val(u) * 1 == digits_val(u));
    } else {
        let v1 = v.drop_last();
        lemma_digits_val_concat(u, v1);
        assert((u + v).drop_last() =~= u + v1);
        assert((u + v).last() == v.last());
        assert(digits_val(u + v) == digits_val(u + v1) * 10 + digit_val(v.last()));
        assert(digits_val(v) == digits_val(v1) * 10 + digit_val(v.last()));
        assert(digits_val(u) * pow10(v1.len()) * 10 == digits_val(u) * pow10(v.len()))
            by (nonlinear_arith)
            requires
                pow10(v.len()) == 10 * pow10(v1.len()),
                v1.len() == v.len() - 1,
        ;
        assert((digits_val(u) * pow10(v1.len()) + digits_val(v1)) * 10 == digits_val(u) * pow10(
            v1.len(),
        ) * 10 + digits_val(v1) * 10);
        assert(digits_val(u + v) == (digits_val(u) * pow10(v1.len()) + digits_val(v1)) * 10
            + digit_val(v.last()));
        assert(digits_val(u + v) == digits_val(u) * pow10(v.len()) + digits_val(v1) * 10
            + digit_val(v.last()));
        assert(digits_val(u + v) == digits_val(u) * pow10(v.len()) + digits_val(v));
    }
}

/// Two digit sequences of the same length compare by value as they do
/// by their first differing digit.
pub proof fn lemma_digits_val_lex(a: Seq<char>, b: Seq<char>, m: int)
    requires
        all_digits(a),
        all_digits(b),
        a.len() == b.len(),
        0 <= m < a.len(),
        forall|j: int| 0 <= j < m ==> a[j] == #[trigger] b[j],
        digit_val(a[m]) < digit_val(b[m]),
    ensures
        digits_val(a) < digits_val(b),
{
    let n = a.len() as int;
    let p = pow10((n - m - 1) as nat);
    let ha = a.take(m + 1);
    let hb = b.take(m + 1);
    let ta = a.skip(m + 1);
    let tb = b.skip(m + 1);
    assert(a =~= ha + ta);
    assert(b =~= hb + tb);
    lemma_digits_val_concat(ha, ta);
    lemma_digits_val_concat(hb, tb);
    assert(ha.drop_last() =~= a.take(m));
    assert(hb.drop_last() =~= b.take(m));
    assert(a.take(m) =~= b.take(m));
    assert(ha.last() == a[m]);
    assert(hb.last() == b[m]);
    assert(digits_val(ha) == digits_val(a.take(m)) * 10 + digit_val(a[m]));
    assert(digits_val(hb) == digits_val(a.take(m)) * 10 + digit_val(b[m]));
    assert(digits_val(ha) + 1 <= digits_val(hb));
    assert(all_digits(ta)) by {
        assert(forall|i: int| 0 <= i < ta.len() ==> ta[i] == #[trigger] a[i + m + 1]);
    }
    lemma_digits_val_bound(ta);
    assert(ta.len() == n - m - 1);
    assert(digits_val(ta) < p);
    assert(digits_val(a) < (digits_val(ha) + 1) * p) by (nonlinear_arith)
        requires
            digits_val(a) == digits_val(ha) * p + digits_val(ta),
            digits_val(ta) < p,
    ;
    assert((digits_val(ha) + 1) * p <= digits_val(hb) * p) by (nonlinear_arith)
        requires
            digits_val(ha) + 1 <= digits_val(hb),
            p >= 0,
    ;
    assert(digits_val(hb) * p <= digits_val(b));
}

/// A strictly shorter digit sequence without leading zeros is worth
/// less than a longer one whose first digit is nonzero.
pub proof fn lemma_digits_val_shorter(a: Seq<char>, b: Seq<char>)
    requires
        all_digits(a),
        all_digits(b),
        a.len() < b.len(),
        b.len() >= 1,
        b[0] != '0',
    ensures
        digits_val(a) < digits_val(b),
{
    lemma_digits_val_bound(a);
    lemma_digits_val_lower(b);
    lemma_pow10_mono(a.len(), (b.len() - 1) as nat);
}

} // verus!

verus! {

pub fn is_digit(c: char) -> (r: bool)
    ensures
        r == is_digit_char(c),
{
    '0' <= c && c <= '9'
}

/// Translates a scanned run in a larger sequence to `digit_run_len` of
/// its suffix view.
proof fn lemma_run_view(v: Seq<char>, i: int, e: int)
    requires
        0 <= i <= e <= v.len(),
        forall|x: int| i <= x < e ==> is_digit_char(#[trigger] v[x]),
        e < v.len() ==> !is_digit_char(v[e]),
    ensures
        digit_run_len(v.skip(i)) == e - i,
{
    let s = v.skip(i);
    assert(forall|j: int| 0 <= j < e - i ==> #[trigger] s[j] == v[i + j]);
    if e - i < s.len() {
        assert(s[e - i] == v[e]);
    }
    lemma_digit_run_len_is(s, (e - i) as nat);
}

/// End of the digit run that starts at `i`.
fn run_end(v: &Vec<char>, i: usize) -> (e: usize)
    requires
        i <= v@.len(),
    ensures
        i <= e <= v@.len(),
        forall|x: int| i <= x < e ==> is_digit_char(#[trigger] v@[x]),
        e < v@.len() ==> !is_digit_char(v@[e as int]),
{
    let mut e = i;
    while e < v.len() && is_digit(v[e])
        invariant
            i <= e <= v@.len(),
            forall|x: int| i <= x < e ==> is_digit_char(#[trigger] v@[x]),
        decreases v@.len() - e,
    {
        e = e + 1;
    }
    e
}

/// First index at or after `i` (up to `e`) that is not a zero digit.
fn skip_zeros(v: &Vec<char>, i: usize, e: usize) -> (z: usize)
    requires
        i <= e <= v@.len(),
    ensures
        i <= z <= e,
        forall|x: int| i <= x < z ==> #[trigger] v@[x] == '0',
        z < e ==> v@[z as int] != '0',
{
    let mut z = i;
    while z < e && v[z] == '0'
        invariant
            i <= z <= e <= v@.len(),
            forall|x: int| i <= x < z ==> #[trigger] v@[x] == '0',
        decreases e - z,
    {
        z = z + 1;
    }
    z
}

/// Natural comparison of the suffixes starting at `i` and `j`.
#[verifier::rlimit(50)]
fn cmp_from(a: &Vec<char>, i: usize, b: &Vec<char>, j: usize) -> (r: i8)
    requires
        i <= a@.len(),
        j <= b@.len(),
    ensures
        r as int == toks_cmp(tokens(a@.skip(i as int)), tokens(b@.skip(j as int))),
    decreases a@.len() - i + b@.len() - j,
{
    let ghost sa = a@.skip(i as int);
    let ghost sb = b@.skip(j as int);
    if i == a.len() && j == b.len() {
        return 0;
    }
    if i == a.len() {
        proof {
            assert(sa.len() == 0);
            assert(sb.len() > 0);
            assert(tokens(sb).len() > 0);
        }
        return -1;
    }
    if j == b.len() {
        proof {
            assert(sb.len() == 0);
            assert(sa.len() > 0);
            assert(tokens(sa).len() > 0);
        }
        return 1;
    }
    let ca = a[i];
    let cb = b[j];
    proof {
        assert(sa[0] == a@[i as int]);
        assert(sb[0] == b@[j as int]);
    }
    let da = is_digit(ca);
    let db = is_digit(cb);
    if !da && !db {
        // two plain characters
        proof {
            assert(tokens(sa) =~= seq![NatTok::Sym(sa[0] as int)] + tokens(sa.drop_first()));
            assert(tokens(sb) =~= seq![NatTok::Sym(sb[0] as int)] + tokens(sb.drop_first()));
        }
        if ca < cb {
            return -1;
        } else if cb < ca {
            return 1;
        } else {
            proof {
                assert(tok_cmp(tokens(sa)[0], tokens(sb)[0]) == 0);
                assert(sa.drop_first() =~= a@.skip(i as int + 1));
                assert(sb.drop_first() =~= b@.skip(j as int + 1));
                assert(tokens(sa).drop_first() =~= tokens(a@.skip(i as int + 1)));
                assert(tokens(sb).drop_first() =~= tokens(b@.skip(j as int + 1)));
            }
            let r = cmp_from(a, i + 1, b, j + 1);
            return r;
        }
    }
    if da && !db {
        // a digit run against a plain character
        proof {
            lemma_digit_run_len_le(sa);
            assert(tokens(sa).len() > 0);
            assert(tokens(sa)[0] is Num);
            assert(tokens(sb) =~= seq![NatTok::Sym(sb[0] as int)] + tokens(sb.drop_first()));
        }
        if '9' < cb {
            return -1;
        } else {
            return 1;
        }
    }
    if !da && db {
        proof {
            lemma_digit_run_len_le(sb);
            assert(tokens(sb).len() > 0);
            assert(tokens(sb)[0] is Num);
            assert(tokens(sa) =~= seq![NatTok::Sym(sa[0] as int)] + tokens(sa.drop_first()));
        }
        if '0' > ca {
            return -1;
        } else {
            return 1;
        }
    }
    // two digit runs: compare the runs by numeric value
    let ea = run_end(a, i);
    let eb = run_end(b, j);
    let ghost run_a = a@.subrange(i as int, ea as int);
    let ghost run_b = b@.subrange(j as int, eb as int);
    let ghost va = digits_val(run_a);
    let ghost vb = digits_val(run_b);
    proof {
        lemma_run_view(a@, i as int, ea as int);
        lemma_run_view(b@, j as int, eb as int);
        assert(digit_run_len(sa) == ea - i);
        assert(digit_run_len(sb) == eb - j);
        assert(sa.take(ea - i) =~= run_a);
        assert(sb.take(eb - j) =~= run_b);
        assert(tokens(sa) =~= seq![NatTok::Num(va)] + tokens(sa.skip(ea - i)));
        assert(tokens(sb) =~= seq![NatTok::Num(vb)] + tokens(sb.skip(eb - j)));
        assert(all_digits(run_a));
        assert(all_digits(run_b));
    }
    let r0 = cmp_runs(a, i, ea, b, j, eb);
    if r0 != 0 {
        proof {
            assert(tok_cmp(tokens(sa)[0], tokens(sb)[0]) == r0 as int);
        }
        return r0;
    }
    proof {
        assert(va == vb);
        assert(tok_cmp(tokens(sa)[0], tokens(sb)[0]) == 0);
        assert(sa.skip(ea - i) =~= a@.skip(ea as int));
        assert(sb.skip(eb - j) =~= b@.skip(eb as int));
        assert(tokens(sa).drop_first() =~= tokens(a@.skip(ea as int)));
        assert(tokens(sb).drop_first() =~= tokens(b@.skip(eb as int)));
        assert(ea > i);
    }
    let r = cmp_from(a, ea, b, eb);
    r
}

/// Compares two digit runs by numeric value.
#[verifier::loop_isolation(false)]
fn cmp_runs(a: &Vec<char>, i: usize, ea: usize, b: &Vec<char>, j: usize, eb: usize) -> (r: i8)
    requires
        i <= ea <= a@.len(),
        j <= eb <= b@.len(),
        forall|x: int| i <= x < ea ==> is_digit_char(#[trigger] a@[x]),
        forall|x: int| j <= x < eb ==> is_digit_char(#[trigger] b@[x]),
    ensures
        r == -1 || r == 0 || r == 1,
        r == -1 <==> digits_val(a@.subrange(i as int, ea as int)) < digits_val(
            b@.subrange(j as int, eb as int),
        ),
        r == 1 <==> digits_val(a@.subrange(i as int, ea as int)) > digits_val(
            b@.subrange(j as int, eb as int),
        ),
        r == 0 <==> digits_val(a@.subrange(i as int, ea as int)) == digits_val(
            b@.subrange(j as int, eb as int),
        ),
{
    let ghost run_a = a@.subrange(i as int, ea as int);
    let ghost run_b = b@.subrange(j as int, eb as int);
    let i0 = skip_zeros(a, i, ea);
    let j0 = skip_zeros(b, j, eb);
    let ghost ta = a@.subrange(i0 as int, ea as int);
    let ghost tb = b@.subrange(j0 as int, eb as int);
    proof {
        assert(forall|x: int| 0 <= x < i0 - i ==> #[trigger] run_a[x] == '0');
        assert(forall|x: int| 0 <= x < j0 - j ==> #[trigger] run_b[x] == '0');
        lemma_digits_val_strip(run_a, (i0 - i) as nat);
        lemma_digits_val_strip(run_b, (j0 - j) as nat);
        assert(run_a.skip(i0 - i) =~= ta);
        assert(run_b.skip(j0 - j) =~= tb);
        assert(digits_val(run_a) == digits_val(ta));
        assert(digits_val(run_b) == digits_val(tb));
        assert(all_digits(ta)) by {
            assert(forall|x: int| 0 <= x < ta.len() ==> ta[x] == #[trigger] a@[x + i0]);
        }
        assert(all_digits(tb)) by {
            assert(forall|x: int| 0 <= x < tb.len() ==> tb[x] == #[trigger] b@[x + j0]);
        }
    }
    let la = ea - i0;
    let lb = eb - j0;
    if la < lb {
        proof {
            assert(tb[0] == b@[j0 as int]);
            assert(tb[0] != '0');
            lemma_digits_val_shorter(ta, tb);
        }
        return -1;
    }
    if lb < la {
        proof {
            assert(ta[0] == a@[i0 as int]);
            assert(ta[0] != '0');
            lemma_digits_val_shorter(tb, ta);
        }
        return 1;
    }
    // equal stripped lengths: compare digit by digit
    let mut m: usize = 0;
    while m < la
        invariant
            0 <= m <= la,
            forall|x: int| 0 <= x < m ==> #[trigger] ta[x] == tb[x],
        decreases la - m,
    {
        let x = a[i0 + m];
        let y = b[j0 + m];
        proof {
            assert(ta[m as int] == a@[(i0 + m) as int]);
            assert(tb[m as int] == b@[(j0 + m) as int]);
            assert(is_digit_char(x) && is_digit_char(y));
            assert(('0' <= x) == (('0' as int) <= (x as int)));
            assert(('0' <= y) == (('0' as int) <= (y as int)));
        }
        if x < y {
            proof {
                assert((x < y) == ((x as int) < (y as int)));
                assert(digit_val(x) < digit_val(y));
                lemma_digits_val_lex(ta, tb, m as int);
            }
            return -1;
        }
        if y < x {
            proof {
                assert((y < x) == ((y as int) < (x as int)));
                assert(digit_val(y) < digit_val(x));
                lemma_digits_val_lex(tb, ta, m as int);
            }
            return 1;
        }
        m = m + 1;
    }
    proof {
        assert(ta =~= tb);
    }
    0
}

/// Natural three-way comparison of two strings: `-1`, `0` or `1` as
/// `a` sorts before, with, or after `b`.
pub fn natural_compare(a: &str, b: &str) -> (r: i8)
    ensures
        r as int == nat_cmp(a@, b@),
{
    let av = crate::text::str_to_chars(a);
    let bv = crate::text::str_to_chars(b);
    proof {
        assert(av@.skip(0) =~= a@);
        assert(bv@.skip(0) =~= b@);
    }
    cmp_from(&av, 0, &bv, 0)
}

/// Plain lexicographic three-way comparison of two strings.
pub fn lex_compare(a: &str, b: &str) -> (r: i8)
    ensures
        r as int == lex_cmp(a@, b@),
{
    let av = crate::text::str_to_chars(a);
    let bv = crate::text::str_to_chars(b);
    proof {
        assert(av@.skip(0) =~= a@);
        assert(bv@.skip(0) =~= b@);
    }
    lex_from(&av, 0, &bv, 0)
}

fn lex_from(a: &Vec<char>, i: usize, b: &Vec<char>, j: usize) -> (r: i8)
    requires
        i <= a@.len(),
        j <= b@.len(),
    ensures
        r as int == lex_cmp(a@.skip(i as int), b@.skip(j as int)),
    decreases a@.len() - i,
{
    if i == a.len() && j == b.len() {
        return 0;
    }
    if i == a.len() {
        return -1;
    }
    if j == b.len() {
        return 1;
    }
    let ca = a[i];
    let cb = b[j];
    proof {
        assert(a@.skip(i as int)[0] == a@[i as int]);
        assert(b@.skip(j as int)[0] == b@[j as int]);
    }
    if ca < cb {
        return -1;
    }
    if cb < ca {
        return 1;
    }
    proof {
        assert(a@.skip(i as int).drop_first() =~= a@.skip(i as int + 1));
        assert(b@.skip(j as int).drop_first() =~= b@.skip(j as int + 1));
    }
    lex_from(a, i + 1, b, j + 1)
}

} // verus!

verus! {

/// A digit sequence is worth at least as much as any of its prefixes.
pub proof fn lemma_digits_val_prefix(s: Seq<char>, m: int)
    requires
        0 <= m <= s.len(),
    ensures
        digits_val(s.take(m)) <= digits_val(s),
{
    let u = s.take(m);
    let v = s.skip(m);
    assert(s =~= u + v);
    lemma_digits_val_concat(u, v);
    lemma_pow10_pos(v.len());
    assert(digits_val(u) * pow10(v.len()) >= digits_val(u)) by (nonlinear_arith)
        requires
            pow10(v.len()) >= 1,
    ;
}

} // verus!
