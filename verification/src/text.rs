//! Plain-text utilities: whitespace trimming, character-wise string equality,
//! digit classification, and decimal rendering of numbers.

use vstd::prelude::*;
use vstd::string::*;

verus! {

/// The whitespace characters stripped from both ends of user input.
pub open spec fn is_space_char(c: char) -> bool {
    c == ' ' || c == '\t' || c == '\n' || c == '\r'
}

/// `s` with its leading whitespace removed.
pub open spec fn trim_start_spec(s: Seq<char>) -> Seq<char>
    decreases s.len(),
{
    if s.len() > 0 && is_space_char(s[0]) {
        trim_start_spec(s.drop_first())
    } else {
        s
    }
}

/// `s` with its trailing whitespace removed.
pub open spec fn trim_end_spec(s: Seq<char>) -> Seq<char>
    decreases s.len(),
{
    if s.len() > 0 && is_space_char(s.last()) {
        trim_end_spec(s.drop_last())
    } else {
        s
    }
}

/// `s` with whitespace removed from both ends.
pub open spec fn trim_spec(s: Seq<char>) -> Seq<char> {
    trim_end_spec(trim_start_spec(s))
}

proof fn lemma_trim_start_at(s: Seq<char>, i: int)
    requires
        0 <= i <= s.len(),
        forall|k: int| 0 <= k < i ==> is_space_char(s[k]),
        i < s.len() ==> !is_space_char(s[i]),
    ensures
        trim_start_spec(s) == s.subrange(i, s.len() as int),
    decreases i,
{
    if i == 0 {
        assert(s.subrange(0, s.len() as int) =~= s);
    } else {
        let t = s.drop_first();
        assert(forall|k: int| 0 <= k < i - 1 ==> is_space_char(#[trigger] t[k]));
        lemma_trim_start_at(t, i - 1);
        assert(t.subrange(i - 1, t.len() as int) =~= s.subrange(i, s.len() as int));
    }
}

proof fn lemma_trim_end_at(s: Seq<char>, j: int)
    requires
        0 <= j <= s.len(),
        forall|k: int| j <= k < s.len() ==> is_space_char(s[k]),
        j > 0 ==> !is_space_char(s[j - 1]),
    ensures
        trim_end_spec(s) == s.subrange(0, j),
    decreases s.len() - j,
{
    if j == s.len() {
        if s.len() > 0 && is_space_char(s.last()) {
            assert(false);
        }
        assert(s.subrange(0, s.len() as int) =~= s);
    } else {
        let t = s.drop_last();
        assert(forall|k: int| j <= k < t.len() ==> is_space_char(#[trigger] t[k]));
        lemma_trim_end_at(t, j);
        assert(t.subrange(0, j) =~= s.subrange(0, j));
    }
}

/// Decides whether `c` is one of the whitespace characters that trimming removes.
pub fn is_space(c: char) -> (r: bool)
    ensures
        r == is_space_char(c),
{
    c == ' ' || c == '\t' || c == '\n' || c == '\r'
}

fn first_non_space(s: &str) -> (r: usize)
    ensures
        r <= s@.len(),
        forall|k: int| 0 <= k < r ==> is_space_char(s@[k]),
        r < s@.len() ==> !is_space_char(s@[r as int]),
{
    let n = s.unicode_len();
    let mut i: usize = 0;
    while i < n
        invariant
            i <= n,
            n == s@.len(),
            forall|k: int| 0 <= k < i ==> is_space_char(s@[k]),
        decreases n - i,
    {
        if !is_space(s.get_char(i)) {
            return i;
        }
        i = i + 1;
    }
    i
}

fn last_non_space_end(s: &str) -> (r: usize)
    ensures
        r <= s@.len(),
        forall|k: int| r <= k < s@.len() ==> is_space_char(s@[k]),
        r > 0 ==> !is_space_char(s@[r - 1]),
{
    let n = s.unicode_len();
    let mut j: usize = n;
    while j > 0
        invariant
            j <= n,
            n == s@.len(),
            forall|k: int| j <= k < s@.len() ==> is_space_char(s@[k]),
        decreases j,
    {
        if !is_space(s.get_char(j - 1)) {
            return j;
        }
        j = j - 1;
    }
    j
}

/// Returns `s` with surrounding whitespace removed, as every field of user
/// input is cleaned before it is stored.
pub fn trim(s: &str) -> (r: String)
    ensures
        r@ == trim_spec(s@),
{
    let n = s.unicode_len();
    let i = first_non_space(s);
    let j = last_non_space_end(s);
    if i >= j {
        proof {
            // Only possible when every character is whitespace.
            assert(forall|k: int| 0 <= k < s@.len() ==> is_space_char(s@[k]));
            lemma_trim_start_at(s@, s@.len() as int);
            assert(s@.subrange(s@.len() as int, s@.len() as int) =~= Seq::<char>::empty());
            lemma_trim_end_at(Seq::<char>::empty(), 0);
            assert(Seq::<char>::empty().subrange(0, 0) =~= Seq::<char>::empty());
        }
        String::new()
    } else {
        let r = s.substring_char(i, j);
        proof {
            lemma_trim_start_at(s@, i as int);
            let t = s@.subrange(i as int, s@.len() as int);
            assert(forall|k: int| j - i <= k < t.len() ==> is_space_char(#[trigger] t[k]));
            assert(!is_space_char(t[j - i - 1]));
            lemma_trim_end_at(t, j - i);
            assert(t.subrange(0, j - i) =~= s@.subrange(i as int, j as int));
        }
        r.to_owned()
    }
}

/// Decides whether two string slices hold the same characters.
pub fn str_eq(a: &str, b: &str) -> (r: bool)
    ensures
        r == (a@ == b@),
{
    let na = a.unicode_len();
    let nb = b.unicode_len();
    if na != nb {
        return false;
    }
    let mut i: usize = 0;
    while i < na
        invariant
            i <= na,
            na == a@.len(),
            na == b@.len(),
            forall|k: int| 0 <= k < i ==> a@[k] == b@[k],
        decreases na - i,
    {
        if a.get_char(i) != b.get_char(i) {
            return false;
        }
        i = i + 1;
    }
    proof {
        assert(a@ =~= b@);
    }
    true
}

/// Whether `c` is a decimal digit.
pub open spec fn is_digit_char(c: char) -> bool {
    ('0' as u32) <= (c as u32) && (c as u32) <= ('9' as u32)
}

/// The numeric value of the digit `c`.
pub open spec fn digit_val(c: char) -> nat
    recommends
        is_digit_char(c),
{
    ((c as u32) - ('0' as u32)) as nat
}

/// Whether every character of `s` is a decimal digit.
pub open spec fn all_digits(s: Seq<char>) -> bool {
    forall|i: int| 0 <= i < s.len() ==> is_digit_char(s[i])
}

/// The number that the digit string `s` denotes, most significant digit first.
pub open spec fn digits_val(s: Seq<char>) -> nat
    decreases s.len(),
{
    if s.len() == 0 {
        0
    } else {
        digits_val(s.drop_last()) * 10 + digit_val(s.last())
    }
}

/// The digit character for a value below ten.
pub open spec fn digit_char(d: nat) -> char {
    if d == 0 {
        '0'
    } else if d == 1 {
        '1'
    } else if d == 2 {
        '2'
    } else if d == 3 {
        '3'
    } else if d == 4 {
        '4'
    } else if d == 5 {
        '5'
    } else if d == 6 {
        '6'
    } else if d == 7 {
        '7'
    } else if d == 8 {
        '8'
    } else {
        '9'
    }
}

/// The canonical decimal rendering of `n`: no sign, no leading zero except
/// for zero itself.
pub open spec fn dec_spec(n: nat) -> Seq<char>
    decreases n,
{
    if n < 10 {
        seq![digit_char(n)]
    } else {
        dec_spec(n / 10).push(digit_char(n % 10))
    }
}

pub(crate) proof fn lemma_digit_char_of_val(c: char)
    requires
        is_digit_char(c),
    ensures
        digit_char(digit_val(c)) == c,
        digit_val(c) < 10,
{
}

pub(crate) proof fn lemma_digits_val_zero(d: Seq<char>)
    requires
        all_digits(d),
        digits_val(d) == 0,
    ensures
        forall|i: int| 0 <= i < d.len() ==> d[i] == '0',
    decreases d.len(),
{
    if d.len() > 0 {
        let t = d.drop_last();
        assert(digits_val(t) == 0);
        assert(digit_val(d.last()) == 0);
        lemma_digit_char_of_val(d.last());
        assert(d.last() == '0');
        assert(all_digits(t)) by {
            assert(forall|i: int| 0 <= i < t.len() ==> t[i] == d[i]);
        }
        lemma_digits_val_zero(t);
        assert(forall|i: int| 0 <= i < d.len() - 1 ==> d[i] == t[i]);
    }
}

/// A nonempty digit string without a leading zero is the canonical decimal
/// rendering of its value.
pub(crate) proof fn lemma_canonical_digits(d: Seq<char>)
    requires
        all_digits(d),
        d.len() > 0,
        d.len() > 1 ==> d[0] != '0',
    ensures
        d == dec_spec(digits_val(d)),
    decreases d.len(),
{
    if d.len() == 1 {
        lemma_digit_char_of_val(d[0]);
        assert(digits_val(d) == digit_val(d[0])) by {
            assert(d.last() == d[0]);
            assert(d.drop_last().len() == 0);
            assert(digits_val(d.drop_last()) == 0);
        }
        assert(d =~= seq![digit_char(digits_val(d))]);
    } else {
        let t = d.drop_last();
        assert(all_digits(t)) by {
            assert(forall|i: int| 0 <= i < t.len() ==> t[i] == d[i]);
        }
        assert(t[0] == d[0]);
        let w = digits_val(t);
        if w == 0 {
            lemma_digits_val_zero(t);
            assert(d[0] == '0');
            assert(false);
        }
        lemma_canonical_digits(t);
        lemma_digit_char_of_val(d.last());
        let r = digit_val(d.last());
        let v = digits_val(d);
        assert(v == w * 10 + r);
        vstd::arithmetic::div_mod::lemma_fundamental_div_mod_converse(
            v as int,
            10,
            w as int,
            r as int,
        );
        assert(v / 10 == w as int);
        assert(v % 10 == r as int);
        assert(v >= 10);
        assert(dec_spec(v) == dec_spec(w).push(digit_char(r)));
        assert(d =~= t.push(d.last()));
        assert(d == dec_spec(v));
    }
}

/// The canonical decimal rendering is nonempty, all digits, and denotes the
/// number it was made from.
pub proof fn lemma_dec_spec_props(n: nat)
    ensures
        dec_spec(n).len() >= 1,
        all_digits(dec_spec(n)),
        digits_val(dec_spec(n)) == n,
    decreases n,
{
    if n < 10 {
        let d = seq![digit_char(n)];
        assert(is_digit_char(digit_char(n)));
        assert(digit_val(digit_char(n)) == n);
        assert(all_digits(d)) by {
            assert(forall|i: int| 0 <= i < d.len() ==> d[i] == digit_char(n));
        }
        assert(digits_val(d) == digit_val(digit_char(n))) by {
            assert(d.drop_last().len() == 0);
            assert(digits_val(d.drop_last()) == 0);
            assert(d.last() == digit_char(n));
        }
    } else {
        lemma_dec_spec_props(n / 10);
        let t = dec_spec(n / 10);
        let d = t.push(digit_char(n % 10));
        assert(d.drop_last() =~= t);
        assert(d.last() == digit_char(n % 10));
        assert(is_digit_char(digit_char(n % 10)));
        assert(digit_val(digit_char(n % 10)) == n % 10);
        assert(all_digits(d)) by {
            assert(forall|k: int| 0 <= k < d.len() - 1 ==> d[k] == t[k]);
        }
        vstd::arithmetic::div_mod::lemma_fundamental_div_mod(n as int, 10);
        assert(digits_val(d) == digits_val(t) * 10 + digit_val(d.last()));
    }
}

/// A canonical rendering of a positive number does not start with zero.
pub proof fn lemma_dec_spec_no_leading_zero(n: nat)
    ensures
        dec_spec(n).len() > 1 ==> dec_spec(n)[0] != '0',
        n >= 1 ==> dec_spec(n)[0] != '0',
    decreases n,
{
    if n >= 10 {
        lemma_dec_spec_no_leading_zero(n / 10);
        lemma_dec_spec_props(n / 10);
        assert(dec_spec(n) == dec_spec(n / 10).push(digit_char(n % 10)));
        assert(dec_spec(n)[0] == dec_spec(n / 10)[0]);
    }
}

/// Reading only a prefix of a digit string never yields a larger value.
pub proof fn lemma_digits_val_prefix_le(d: Seq<char>, k: int)
    requires
        0 <= k <= d.len(),
    ensures
        digits_val(d.subrange(0, k)) <= digits_val(d),
    decreases d.len() - k,
{
    if k == d.len() {
        assert(d.subrange(0, k) =~= d);
    } else {
        lemma_digits_val_prefix_le(d, k + 1);
        let a = d.subrange(0, k);
        let b = d.subrange(0, k + 1);
        assert(b.drop_last() =~= a);
        assert(digits_val(b) == digits_val(a) * 10 + digit_val(b.last()));
        assert(digits_val(a) * 10 >= digits_val(a));
    }
}

fn digit_str(d: usize) -> (r: &'static str)
    requires
        d < 10,
    ensures
        r@.len() == 1,
        r@[0] == digit_char(d as nat),
{
    proof {
        reveal_strlit("0");
        reveal_strlit("1");
        reveal_strlit("2");
        reveal_strlit("3");
        reveal_strlit("4");
        reveal_strlit("5");
        reveal_strlit("6");
        reveal_strlit("7");
        reveal_strlit("8");
        reveal_strlit("9");
    }
    if d == 0 {
        "0"
    } else if d == 1 {
        "1"
    } else if d == 2 {
        "2"
    } else if d == 3 {
        "3"
    } else if d == 4 {
        "4"
    } else if d == 5 {
        "5"
    } else if d == 6 {
        "6"
    } else if d == 7 {
        "7"
    } else if d == 8 {
        "8"
    } else {
        "9"
    }
}

/// Renders `n` in decimal, as menu positions and length prefixes are written.
pub fn render_usize(n: usize) -> (r: String)
    ensures
        r@ == dec_spec(n as nat),
    decreases n,
{
    let d = n % 10;
    let ds = digit_str(d);
    if n < 10 {
        let r = ds.to_owned();
        proof {
            assert(r@ =~= seq![digit_char(n as nat)]);
        }
        r
    } else {
        let mut r = render_usize(n / 10);
        r.append(ds);
        proof {
            assert(r@ =~= dec_spec((n / 10) as nat).push(digit_char((n % 10) as nat)));
        }
        r
    }
}

} // verus!
