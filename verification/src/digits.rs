use vstd::prelude::*;

verus! {

/// The character for one decimal digit value.
pub open spec fn digit_char(d: nat) -> char {
    if d == 0 {
        '0'
    } else if d == 1 {
        '1'
    } else if d == 2 {
        '2'
    } else if d == 3 {
        '3'
    } else if d == 4 {
        '4'
    } else if d == 5 {
        '5'
    } else if d == 6 {
        '6'
    } else if d == 7 {
        '7'
    } else if d == 8 {
        '8'
    } else {
        '9'
    }
}

pub open spec fn is_digit(c: char) -> bool {
    '0' <= c && c <= '9'
}

/// The value of one digit character; only meaningful on the digit characters.
pub open spec fn digit_val(c: char) -> nat {
    if c == '0' {
        0
    } else if c == '1' {
        1
    } else if c == '2' {
        2
    } else if c == '3' {
        3
    } else if c == '4' {
        4
    } else if c == '5' {
        5
    } else if c == '6' {
        6
    } else if c == '7' {
        7
    } else if c == '8' {
        8
    } else {
        9
    }
}

/// Decimal digit string of `n`, most significant digit first.
pub open spec fn dec_digits(n: nat) -> Seq<char>
    decreases n,
{
    if n < 10 {
        seq![digit_char(n)]
    } else {
        dec_digits(n / 10).push(digit_char(n % 10))
    }
}

/// Numeric value of a digit string.
pub open spec fn dec_val(s: Seq<char>) -> nat
    decreases s.len(),
{
    if s.len() == 0 {
        0
    } else {
        dec_val(s.drop_last()) * 10 + digit_val(s.last())
    }
}

pub open spec fn all_digits(s: Seq<char>) -> bool {
    forall|i: int| 0 <= i < s.len() ==> is_digit(#[trigger] s[i])
}

/// A canonical decimal representation: nonempty, digits only, no leading zero.
pub open spec fn canonical_digits(s: Seq<char>) -> bool {
    s.len() > 0 && all_digits(s) && (s.len() > 1 ==> s[0] != '0')
}

pub proof fn lemma_dec_digits_canonical(n: nat)
    ensures
        canonical_digits(dec_digits(n)),
        n >= 1 ==> dec_digits(n)[0] != '0',
        n < 10 <==> dec_digits(n).len() == 1,
    decreases n,
{
    if n < 10 {
        assert(is_digit(digit_char(n)));
    } else {
        lemma_dec_digits_canonical(n / 10);
        assert(is_digit(digit_char(n % 10)));
        assert(dec_digits(n)[0] == dec_digits(n / 10)[0]);
    }
}

pub proof fn lemma_dec_digits_val(n: nat)
    ensures
        dec_val(dec_digits(n)) == n,
    decreases n,
{
    if n < 10 {
        let s = seq![digit_char(n)];
        assert(s.drop_last() =~= Seq::<char>::empty());
        assert(dec_val(s) == dec_val(s.drop_last()) * 10 + digit_val(s.last()));
        assert(digit_val(digit_char(n)) == n);
    } else {
        lemma_dec_digits_val(n / 10);
        let s = dec_digits(n / 10).push(digit_char(n % 10));
        assert(s.drop_last() =~= dec_digits(n / 10));
        assert(s.last() == digit_char(n % 10));
        assert(digit_val(digit_char(n % 10)) == n % 10);
    }
}

pub proof fn lemma_digit_char_val(c: char)
    requires
        is_digit(c),
    ensures
        digit_char(digit_val(c)) == c,
        digit_val(c) <= 9,
{
}

/// A nonempty digit string without a leading zero denotes a positive value.
pub proof fn lemma_dec_val_positive(s: Seq<char>)
    requires
        s.len() >= 1,
        all_digits(s),
        s[0] != '0',
    ensures
        dec_val(s) >= 1,
    decreases s.len(),
{
    if s.len() == 1 {
        lemma_digit_char_val(s[0]);
        assert(digit_val(s[0]) >= 1);
    } else {
        assert(s.drop_last()[0] == s[0]);
        lemma_dec_val_positive(s.drop_last());
    }
}

/// The digit string of the value of a canonical digit string is itself.
pub proof fn lemma_dec_val_digits(s: Seq<char>)
    requires
        canonical_digits(s),
    ensures
        dec_digits(dec_val(s)) == s,
    decreases s.len(),
{
    if s.len() == 1 {
        lemma_digit_char_val(s[0]);
        assert(s.drop_last() =~= Seq::<char>::empty());
        assert(dec_val(s.drop_last()) == 0);
        assert(s.last() == s[0]);
        assert(dec_val(s) == digit_val(s[0]));
        assert(dec_digits(dec_val(s)) =~= s);
    } else {
        let front = s.drop_last();
        assert(front[0] == s[0]);
        assert(all_digits(front));
        lemma_dec_val_positive(front);
        lemma_digit_char_val(s.last());
        let v = dec_val(s);
        assert(v == dec_val(front) * 10 + digit_val(s.last()));
        assert(v >= 10) by {
            assert(dec_val(front) * 10 >= 10) by (nonlinear_arith)
                requires
                    dec_val(front) >= 1,
            ;
        }
        assert(v / 10 == dec_val(front) && v % 10 == digit_val(s.last())) by (nonlinear_arith)
            requires
                v == dec_val(front) * 10 + digit_val(s.last()),
                digit_val(s.last()) <= 9,
        ;
        lemma_dec_val_digits(front);
        assert(dec_digits(v) =~= s);
    }
}

pub open spec fn pow10(n: nat) -> nat
    decreases n,
{
    if n == 0 {
        1
    } else {
        10 * pow10((n - 1) as nat)
    }
}

pub proof fn lemma_pow10_pos(n: nat)
    ensures
        pow10(n) >= 1,
    decreases n,
{
    if n > 0 {
        lemma_pow10_pos((n - 1) as nat);
    }
}

/// Splitting a digit string splits its value positionally.
pub proof fn lemma_dec_val_concat(a: Seq<char>, b: Seq<char>)
    ensures
        dec_val(a + b) == dec_val(a) * pow10(b.len()) + dec_val(b),
    decreases b.len(),
{
    if b.len() == 0 {
        assert(a + b =~= a);
        assert(dec_val(b) == 0);
        assert(pow10(b.len()) == 1);
        assert(dec_val(a) * pow10(b.len()) + dec_val(b) == dec_val(a)) by (nonlinear_arith)
            requires
                pow10(b.len()) == 1,
                dec_val(b) == 0,
        ;
    } else {
        let front = b.drop_last();
        lemma_dec_val_concat(a, front);
        assert((a + b).drop_last() =~= a + front);
        assert((a + b).last() == b.last());
        assert(dec_val(a + b) == (dec_val(a) * pow10(front.len()) + dec_val(front)) * 10
            + digit_val(b.last()));
        assert((dec_val(a) * pow10(front.len())) * 10 == dec_val(a) * (10 * pow10(front.len())))
            by (nonlinear_arith);
        assert(pow10(b.len()) == 10 * pow10(front.len()));
        assert(dec_val(b) == dec_val(front) * 10 + digit_val(b.last()));
        assert(dec_val(a + b) == dec_val(a) * pow10(b.len()) + dec_val(b)) by (nonlinear_arith)
            requires
                dec_val(a + b) == (dec_val(a) * pow10(front.len()) + dec_val(front)) * 10
                    + digit_val(b.last()),
                dec_val(b) == dec_val(front) * 10 + digit_val(b.last()),
                pow10(b.len()) == 10 * pow10(front.len()),
        ;
    }
}

/// A value never shrinks when more digits follow it.
pub proof fn lemma_dec_val_prefix(a: Seq<char>, b: Seq<char>)
    ensures
        dec_val(a + b) >= dec_val(a),
{
    lemma_dec_val_concat(a, b);
    lemma_pow10_pos(b.len());
    assert(dec_val(a) * pow10(b.len()) >= dec_val(a)) by (nonlinear_arith)
        requires
            pow10(b.len()) >= 1,
    ;
}

/// First index at or after `i` holding a non-digit (or the end of `s`).
pub open spec fn digit_run_end(s: Seq<char>, i: int) -> int
    decreases s.len() - i,
{
    if i < s.len() && 0 <= i && is_digit(s[i]) {
        digit_run_end(s, i + 1)
    } else {
        i
    }
}

pub proof fn lemma_digit_run_end(s: Seq<char>, i: int)
    requires
        0 <= i <= s.len(),
    ensures
        i <= digit_run_end(s, i) <= s.len(),
        forall|k: int| i <= k < digit_run_end(s, i) ==> is_digit(#[trigger] s[k]),
        digit_run_end(s, i) == s.len() || !is_digit(s[digit_run_end(s, i)]),
    decreases s.len() - i,
{
    if i < s.len() && is_digit(s[i]) {
        lemma_digit_run_end(s, i + 1);
    }
}

/// The digit run end is pinned by any witness index with its properties.
pub proof fn lemma_digit_run_end_is(s: Seq<char>, i: int, j: int)
    requires
        0 <= i <= j <= s.len(),
        forall|k: int| i <= k < j ==> is_digit(#[trigger] s[k]),
        j == s.len() || !is_digit(s[j]),
    ensures
        digit_run_end(s, i) == j,
    decreases j - i,
{
    if i < j {
        assert(is_digit(s[i]));
        lemma_digit_run_end_is(s, i + 1, j);
    }
}

/// Scanning a decimal number at position `i`: the maximal digit run must be
/// nonempty, free of a leading zero, and denote a value that fits in `u64`.
pub open spec fn spec_scan(s: Seq<char>, i: int) -> Option<(nat, int)> {
    let j = digit_run_end(s, i);
    if j == i {
        None
    } else if j - i > 1 && s[i] == '0' {
        None
    } else if dec_val(s.subrange(i, j)) > u64::MAX {
        None
    } else {
        Some((dec_val(s.subrange(i, j)), j))
    }
}

/// Whether an executable scan result agrees with `spec_scan`.
pub open spec fn scan_agrees(r: Option<(u64, usize)>, sp: Option<(nat, int)>) -> bool {
    match r {
        Some(p) => sp == Some((p.0 as nat, p.1 as int)),
        None => sp is None,
    }
}

fn is_digit_at(s: &str, j: usize) -> (b: bool)
    requires
        j < s@.len(),
    ensures
        b == is_digit(s@[j as int]),
{
    let c = s.get_char(j);
    '0' <= c && c <= '9'
}

fn digit_at(s: &str, j: usize) -> (d: u64)
    requires
        j < s@.len(),
    ensures
        d == digit_val(s@[j as int]),
        d <= 9,
{
    let c = s.get_char(j);
    if c == '0' {
        0
    } else if c == '1' {
        1
    } else if c == '2' {
        2
    } else if c == '3' {
        3
    } else if c == '4' {
        4
    } else if c == '5' {
        5
    } else if c == '6' {
        6
    } else if c == '7' {
        7
    } else if c == '8' {
        8
    } else {
        9
    }
}

/// Scan a decimal number in `s` starting at `start`, exactly as `spec_scan`
/// describes: on success the value and the index one past the digit run.
pub fn scan_u64(s: &str, len: usize, start: usize) -> (r: Option<(u64, usize)>)
    requires
        len == s@.len(),
        start <= len,
    ensures
        scan_agrees(r, spec_scan(s@, start as int)),
{
    let mut j: usize = start;
    while j < len && is_digit_at(s, j)
        invariant
            start <= j <= len == s@.len(),
            forall|k: int| start <= k < j ==> is_digit(#[trigger] s@[k]),
        decreases len - j,
    {
        j = j + 1;
    }
    proof {
        lemma_digit_run_end_is(s@, start as int, j as int);
    }
    if j == start {
        return None;
    }
    if j > start + 1 && s.get_char(start) == '0' {
        return None;
    }
    let ghost run = s@.subrange(start as int, j as int);
    let mut v: u64 = 0;
    let mut k: usize = start;
    while k < j
        invariant
            start <= k <= j <= len == s@.len(),
            forall|t: int| start <= t < j ==> is_digit(#[trigger] s@[t]),
            run == s@.subrange(start as int, j as int),
            v as nat == dec_val(s@.subrange(start as int, k as int)),
            digit_run_end(s@, start as int) == j as int,
            j != start,
            !(j - start > 1 && s@[start as int] == '0'),
        decreases j - k,
    {
        let d: u64 = digit_at(s, k);
        proof {
            let pre = s@.subrange(start as int, k as int);
            let ext = s@.subrange(start as int, k as int + 1);
            assert(ext.drop_last() =~= pre);
            assert(ext.last() == s@[k as int]);
            assert(dec_val(ext) == v as nat * 10 + d);
        }
        if v > (u64::MAX - d) / 10 {
            proof {
                let ext = s@.subrange(start as int, k as int + 1);
                assert(v as nat * 10 + d > u64::MAX) by (nonlinear_arith)
                    requires
                        v > (u64::MAX - d) / 10,
                        v <= u64::MAX,
                        d <= 9,
                ;
                let rest = s@.subrange(k as int + 1, j as int);
                assert(ext + rest =~= run);
                lemma_dec_val_prefix(ext, rest);
                assert(dec_val(run) > u64::MAX);
            }
            return None;
        }
        proof {
            assert(v as nat * 10 + d <= u64::MAX) by (nonlinear_arith)
                requires
                    v <= (u64::MAX - d) / 10,
                    d <= 9,
            ;
        }
        v = v * 10 + d;
        k = k + 1;
    }
    assert(v as nat == dec_val(run));
    Some((v, j))
}

/// The one-character string for a decimal digit.
fn digit_str(d: u64) -> (r: &'static str)
    requires
        d < 10,
    ensures
        r@ == seq![digit_char(d as nat)],
{
    match d {
        0 => {
            proof {
                reveal_strlit("0");
                assert("0"@ =~= seq![digit_char(0)]);
            }
            "0"
        },
        1 => {
            proof {
                reveal_strlit("1");
                assert("1"@ =~= seq![digit_char(1)]);
            }
            "1"
        },
        2 => {
            proof {
                reveal_strlit("2");
                assert("2"@ =~= seq![digit_char(2)]);
            }
            "2"
        },
        3 => {
            proof {
                reveal_strlit("3");
                assert("3"@ =~= seq![digit_char(3)]);
            }
            "3"
        },
        4 => {
            proof {
                reveal_strlit("4");
                assert("4"@ =~= seq![digit_char(4)]);
            }
            "4"
        },
        5 => {
            proof {
                reveal_strlit("5");
                assert("5"@ =~= seq![digit_char(5)]);
            }
            "5"
        },
        6 => {
            proof {
                reveal_strlit("6");
                assert("6"@ =~= seq![digit_char(6)]);
            }
            "6"
        },
        7 => {
            proof {
                reveal_strlit("7");
                assert("7"@ =~= seq![digit_char(7)]);
            }
            "7"
        },
        8 => {
            proof {
                reveal_strlit("8");
                assert("8"@ =~= seq![digit_char(8)]);
            }
            "8"
        },
        _ => {
            proof {
                reveal_strlit("9");
                assert("9"@ =~= seq![digit_char(9)]);
            }
            "9"
        },
    }
}

/// Append the canonical decimal digits of `n` to `out`.
pub fn push_decimal(out: &mut String, n: u64)
    ensures
        final(out)@ == old(out)@ + dec_digits(n as nat),
    decreases n,
{
    if n < 10 {
        out.append(digit_str(n));
        assert(old(out)@ + seq![digit_char(n as nat)] =~= old(out)@ + dec_digits(n as nat));
    } else {
        push_decimal(out, n / 10);
        out.append(digit_str(n % 10));
        assert((old(out)@ + dec_digits((n / 10) as nat)) + seq![digit_char((n % 10) as nat)]
            =~= old(out)@ + dec_digits(n as nat));
    }
}

} // verus!
