//! Character-level vocabulary shared by the field parsers: whitespace,
//! splitting a line into words, joining words, and decimal digits.

use vstd::prelude::*;
use vstd::string::*;

verus! {

/// The characters with the Unicode `White_Space` property.
pub open spec fn is_space(c: char) -> bool {
    let u = c as u32;
    ||| u == 0x20
    ||| 0x09 <= u <= 0x0D
    ||| u == 0x85
    ||| u == 0xA0
    ||| u == 0x1680
    ||| 0x2000 <= u <= 0x200A
    ||| u == 0x2028
    ||| u == 0x2029
    ||| u == 0x202F
    ||| u == 0x205F
    ||| u == 0x3000
}

pub fn is_space_char(c: char) -> (r: bool)
    ensures
        r == is_space(c),
{
    let u = c as u32;
    u == 0x20 || (0x09 <= u && u <= 0x0D) || u == 0x85 || u == 0xA0 || u == 0x1680 || (0x2000
        <= u && u <= 0x200A) || u == 0x2028 || u == 0x2029 || u == 0x202F || u == 0x205F || u
        == 0x3000
}

/// A word: at least one character, none of them whitespace.
pub open spec fn is_word(w: Seq<char>) -> bool {
    &&& w.len() > 0
    &&& forall|i: int| 0 <= i < w.len() ==> !is_space(#[trigger] w[i])
}

/// The words of `s`, given that `cur` is a word already begun before `s`.
pub open spec fn split_from(s: Seq<char>, cur: Seq<char>) -> Seq<Seq<char>>
    decreases s.len(),
{
    if s.len() == 0 {
        if cur.len() > 0 {
            seq![cur]
        } else {
            seq![]
        }
    } else if is_space(s[0]) {
        let rest = split_from(s.drop_first(), seq![]);
        if cur.len() > 0 {
            seq![cur] + rest
        } else {
            rest
        }
    } else {
        split_from(s.drop_first(), cur.push(s[0]))
    }
}

/// The maximal runs of non-whitespace characters of `s`, in order.
pub open spec fn tokens(s: Seq<char>) -> Seq<Seq<char>> {
    split_from(s, seq![])
}

/// Words separated by single spaces.
pub open spec fn join(ws: Seq<Seq<char>>) -> Seq<char>
    decreases ws.len(),
{
    if ws.len() == 0 {
        seq![]
    } else if ws.len() == 1 {
        ws[0]
    } else {
        join(ws.drop_last()) + seq![' '] + ws.last()
    }
}

pub open spec fn views(v: Seq<String>) -> Seq<Seq<char>> {
    v.map_values(|s: String| s@)
}

pub proof fn lemma_split_concat(a: Seq<char>, c: char, b: Seq<char>, cur: Seq<char>)
    requires
        is_space(c),
    ensures
        split_from(a + seq![c] + b, cur) == split_from(a, cur) + split_from(b, seq![]),
    decreases a.len(),
{
    let s = a + seq![c] + b;
    if a.len() == 0 {
        assert(s =~= seq![c] + b);
        assert(s.drop_first() =~= b);
        assert(split_from(a, cur) == (if cur.len() > 0 { seq![cur] } else { seq![] }));
        if cur.len() == 0 {
            assert(split_from(b, seq![]) =~= seq![] + split_from(b, seq![]));
        }
    } else {
        assert(s.drop_first() =~= a.drop_first() + seq![c] + b);
        assert(s[0] == a[0]);
        if is_space(a[0]) {
            lemma_split_concat(a.drop_first(), c, b, seq![]);
            let ra = split_from(a.drop_first(), seq![]);
            let rb = split_from(b, seq![]);
            if cur.len() > 0 {
                assert(seq![cur] + (ra + rb) =~= (seq![cur] + ra) + rb);
            }
        } else {
            lemma_split_concat(a.drop_first(), c, b, cur.push(a[0]));
        }
    }
}

/// Two pieces joined by a whitespace character split into the words of each.
pub proof fn lemma_tokens_concat(a: Seq<char>, c: char, b: Seq<char>)
    requires
        is_space(c),
    ensures
        tokens(a + seq![c] + b) == tokens(a) + tokens(b),
{
    lemma_split_concat(a, c, b, seq![]);
}

proof fn lemma_split_word(w: Seq<char>, k: int)
    requires
        is_word(w),
        0 < k <= w.len(),
    ensures
        split_from(w.subrange(k, w.len() as int), w.subrange(0, k)) == seq![w],
    decreases w.len() - k,
{
    let rest = w.subrange(k, w.len() as int);
    if k == w.len() {
        assert(w.subrange(0, k) =~= w);
    } else {
        assert(rest.drop_first() =~= w.subrange(k + 1, w.len() as int));
        assert(w.subrange(0, k).push(rest[0]) =~= w.subrange(0, k + 1));
        lemma_split_word(w, k + 1);
    }
}

/// A single word splits into itself.
pub proof fn lemma_tokens_word(w: Seq<char>)
    requires
        is_word(w),
    ensures
        tokens(w) == seq![w],
{
    assert(w.drop_first() =~= w.subrange(1, w.len() as int));
    assert(seq![w[0]] =~= w.subrange(0, 1));
    assert(Seq::<char>::empty().push(w[0]) =~= w.subrange(0, 1));
    lemma_split_word(w, 1);
}

/// Words joined by single spaces split back into the same words.
pub proof fn lemma_tokens_join(ws: Seq<Seq<char>>)
    requires
        forall|i: int| 0 <= i < ws.len() ==> is_word(#[trigger] ws[i]),
    ensures
        tokens(join(ws)) == ws,
    decreases ws.len(),
{
    if ws.len() == 0 {
        assert(ws =~= seq![]);
    } else if ws.len() == 1 {
        lemma_tokens_word(ws[0]);
        assert(ws =~= seq![ws[0]]);
    } else {
        let front = ws.drop_last();
        assert forall|i: int| 0 <= i < front.len() implies is_word(#[trigger] front[i]) by {
            assert(front[i] == ws[i]);
        }
        lemma_tokens_join(front);
        lemma_tokens_concat(join(front), ' ', ws.last());
        lemma_tokens_word(ws.last());
        assert(ws =~= front + seq![ws.last()]);
    }
}

/// Splits `s` into its whitespace-separated words.
pub fn split_words(s: &str) -> (r: Vec<String>)
    ensures
        views(r@) == tokens(s@),
{
    let n = s.unicode_len();
    let mut out: Vec<String> = Vec::new();
    let mut start: usize = 0;
    let mut i: usize = 0;
    assert(s@.subrange(0, n as int) =~= s@);
    assert(s@.subrange(0, 0) =~= Seq::<char>::empty());
    assert(views(out@) =~= Seq::<Seq<char>>::empty());
    assert(views(out@) + tokens(s@) =~= tokens(s@));
    while i < n
        invariant
            n == s@.len(),
            start <= i <= n,
            tokens(s@) == views(out@) + split_from(
                s@.subrange(i as int, n as int),
                s@.subrange(start as int, i as int),
            ),
        decreases n - i,
    {
        let c = s.get_char(i);
        let ghost rest = s@.subrange(i as int, n as int);
        assert(rest[0] == c);
        assert(rest.drop_first() =~= s@.subrange(i + 1, n as int));
        if is_space_char(c) {
            let ghost before = views(out@);
            if start < i {
                let w = s.substring_char(start, i).to_owned();
                out.push(w);
                assert(views(out@) =~= before + seq![w@]);
            }
            assert(s@.subrange(i + 1, i + 1) =~= Seq::<char>::empty());
            proof {
                let cur = s@.subrange(start as int, i as int);
                let tail = split_from(rest.drop_first(), seq![]);
                if cur.len() > 0 {
                    assert(before + (seq![cur] + tail) =~= (before + seq![cur]) + tail);
                }
            }
            i = i + 1;
            start = i;
        } else {
            assert(s@.subrange(start as int, i as int).push(c) =~= s@.subrange(
                start as int,
                i + 1,
            ));
            i = i + 1;
        }
    }
    assert(s@.subrange(n as int, n as int) =~= Seq::<char>::empty());
    if start < n {
        let ghost before = views(out@);
        let w = s.substring_char(start, n).to_owned();
        out.push(w);
        assert(views(out@) =~= before + seq![w@]);
    } else {
        assert(views(out@) + Seq::<Seq<char>>::empty() =~= views(out@));
    }
    out
}


/// Joins words with single spaces.
pub fn join_words(ws: &Vec<String>) -> (r: String)
    ensures
        r@ == join(views(ws@)),
{
    let mut out = String::new();
    let mut k: usize = 0;
    while k < ws.len()
        invariant
            k <= ws@.len(),
            out@ == join(views(ws@).subrange(0, k as int)),
        decreases ws@.len() - k,
    {
        let ghost vs = views(ws@);
        let ghost pre = vs.subrange(0, k as int);
        assert(vs.subrange(0, k + 1).drop_last() =~= pre);
        if k > 0 {
            out.append(" ");
            proof {
                reveal_strlit(" ");
            }
        } else {
            assert(vs.subrange(0, 1) =~= seq![vs[0]]);
        }
        out.append(ws[k].as_str());
        k = k + 1;
    }
    assert(views(ws@).subrange(0, ws@.len() as int) =~= views(ws@));
    out
}

/// Whether `s` begins with `p`.
pub open spec fn has_prefix(s: Seq<char>, p: Seq<char>) -> bool {
    p.len() <= s.len() && s.subrange(0, p.len() as int) == p
}

pub fn starts_with(s: &str, p: &str) -> (r: bool)
    ensures
        r == has_prefix(s@, p@),
{
    let n = s.unicode_len();
    let m = p.unicode_len();
    if m > n {
        return false;
    }
    let mut i: usize = 0;
    while i < m
        invariant
            n == s@.len(),
            m == p@.len(),
            m <= n,
            i <= m,
            forall|j: int| 0 <= j < i ==> s@[j] == p@[j],
        decreases m - i,
    {
        if s.get_char(i) != p.get_char(i) {
            assert(s@.subrange(0, m as int)[i as int] != p@[i as int]);
            return false;
        }
        i = i + 1;
    }
    assert(s@.subrange(0, m as int) =~= p@);
    true
}

/// Whether two texts are equal.
pub fn same_text(a: &str, b: &str) -> (r: bool)
    ensures
        r == (a@ == b@),
{
    if a.unicode_len() != b.unicode_len() {
        return false;
    }
    let r = starts_with(a, b);
    assert(a@.subrange(0, b@.len() as int) =~= a@);
    r
}

/// The text of `s` from character `k` on.
pub fn tail_from(s: &str, k: usize) -> (r: &str)
    requires
        k <= s@.len(),
    ensures
        r@ == s@.subrange(k as int, s@.len() as int),
{
    let n = s.unicode_len();
    s.substring_char(k, n)
}

pub open spec fn is_digit(c: char) -> bool {
    0x30 <= (c as u32) <= 0x39
}

pub open spec fn digit_value(c: char) -> nat {
    (c as u32 - 0x30) as nat
}

pub open spec fn all_digits(s: Seq<char>) -> bool {
    forall|i: int| 0 <= i < s.len() ==> is_digit(#[trigger] s[i])
}

/// The number that a string of decimal digits denotes.
pub open spec fn digits_value(s: Seq<char>) -> nat
    decreases s.len(),
{
    if s.len() == 0 {
        0
    } else {
        digits_value(s.drop_last()) * 10 + digit_value(s.last())
    }
}

pub open spec fn digit_char(d: nat) -> char {
    if d == 0 {
        '0'
    } else if d == 1 {
        '1'
    } else if d == 2 {
        '2'
    } else if d == 3 {
        '3'
    } else if d == 4 {
        '4'
    } else if d == 5 {
        '5'
    } else if d == 6 {
        '6'
    } else if d == 7 {
        '7'
    } else if d == 8 {
        '8'
    } else {
        '9'
    }
}

/// The decimal notation of `n`, without leading zeros.
pub open spec fn decimal(n: nat) -> Seq<char>
    decreases n,
{
    if n < 10 {
        seq![digit_char(n)]
    } else {
        decimal(n / 10).push(digit_char(n % 10))
    }
}

pub open spec fn zeros(k: nat) -> Seq<char> {
    Seq::new(k, |i: int| '0')
}

/// The decimal notation of `n`, padded with leading zeros to at least `w` digits.
pub open spec fn padded(n: nat, w: nat) -> Seq<char> {
    let d = decimal(n);
    if d.len() >= w {
        d
    } else {
        zeros((w - d.len()) as nat) + d
    }
}

pub proof fn lemma_decimal(n: nat)
    ensures
        all_digits(decimal(n)),
        decimal(n).len() >= 1,
        digits_value(decimal(n)) == n,
        n < 10 ==> decimal(n).len() == 1,
        n < 100 ==> decimal(n).len() <= 2,
        n < 1000 ==> decimal(n).len() <= 3,
        n < 10000 ==> decimal(n).len() <= 4,
        n >= 10 ==> decimal(n).len() >= 2,
    decreases n,
{
    lemma_digit_char(n % 10);
    if n < 10 {
        assert(decimal(n).drop_last() =~= Seq::<char>::empty());
        assert(digits_value(Seq::<char>::empty()) == 0);
        assert(decimal(n).last() == digit_char(n));
    } else {
        lemma_decimal(n / 10);
        assert((n / 10) * 10 + n % 10 == n) by (nonlinear_arith);
        assert(n < 10000 ==> n / 10 < 1000) by (nonlinear_arith);
        assert(n < 1000 ==> n / 10 < 100) by (nonlinear_arith);
        assert(n < 100 ==> n / 10 < 10) by (nonlinear_arith);
        let d = decimal(n);
        assert(d.drop_last() =~= decimal(n / 10));
        assert(d.last() == digit_char(n % 10));
        assert(digits_value(d) == digits_value(decimal(n / 10)) * 10 + n % 10);
        assert(is_digit(digit_char(n % 10)));
        assert forall|i: int| 0 <= i < d.len() implies is_digit(#[trigger] d[i]) by {
            if i < d.len() - 1 {
                assert(d[i] == decimal(n / 10)[i]);
            }
        }
    }
}

pub proof fn lemma_digit_char(d: nat)
    requires
        d < 10,
    ensures
        is_digit(digit_char(d)),
        digit_value(digit_char(d)) == d,
{
}

pub proof fn lemma_zeros_value(k: nat, s: Seq<char>)
    ensures
        digits_value(zeros(k) + s) == digits_value(s),
        all_digits(s) ==> all_digits(zeros(k) + s),
    decreases s.len(),
{
    let z = zeros(k) + s;
    if s.len() == 0 {
        assert(z =~= zeros(k));
        lemma_zeros_value_only(k);
    } else {
        assert(z.drop_last() =~= zeros(k) + s.drop_last());
        lemma_zeros_value(k, s.drop_last());
    }
    if all_digits(s) {
        assert forall|i: int| 0 <= i < z.len() implies is_digit(#[trigger] z[i]) by {
            if i >= k {
                assert(z[i] == s[i - k]);
            }
        }
    }
}

proof fn lemma_zeros_value_only(k: nat)
    ensures
        digits_value(zeros(k)) == 0,
    decreases k,
{
    if k > 0 {
        assert(zeros(k).drop_last() =~= zeros((k - 1) as nat));
        lemma_zeros_value_only((k - 1) as nat);
    }
}

/// Padded decimal notation is all digits and denotes its number.
pub proof fn lemma_padded(n: nat, w: nat)
    ensures
        all_digits(padded(n, w)),
        digits_value(padded(n, w)) == n,
        padded(n, w).len() >= w,
        padded(n, w).len() >= 1,
        w >= 2 && n < 100 ==> padded(n, w).len() == w,
        w >= 4 && n < 10000 ==> padded(n, w).len() == w,
{
    lemma_decimal(n);
    lemma_zeros_value((w - decimal(n).len()) as nat, decimal(n));
}

pub fn is_digit_char(c: char) -> (r: bool)
    ensures
        r == is_digit(c),
{
    let u = c as u32;
    0x30 <= u && u <= 0x39
}

/// Appends the digit `d` to `out`.
pub fn push_digit(out: &mut String, d: u32)
    requires
        d < 10,
    ensures
        final(out)@ == old(out)@.push(digit_char(d as nat)),
{
    let ds = "0123456789";
    proof {
        reveal_strlit("0123456789");
    }
    let piece = ds.substring_char(d as usize, d as usize + 1);
    assert(piece@ =~= seq![digit_char(d as nat)]);
    out.append(piece);
}

/// Appends the decimal notation of `n` to `out`.
pub fn push_decimal(out: &mut String, n: u32)
    ensures
        final(out)@ == old(out)@ + decimal(n as nat),
    decreases n,
{
    if n >= 10 {
        push_decimal(out, n / 10);
    }
    push_digit(out, n % 10);
    proof {
        if n >= 10 {
            assert(decimal(n as nat) == decimal((n / 10) as nat).push(digit_char((n % 10) as nat)));
        }
    }
    assert(final(out)@ =~= old(out)@ + decimal(n as nat));
}

} // verus!
