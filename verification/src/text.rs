//! Verified text utilities over character sequences.
//!
//! All string manipulation in the library happens on `Vec<char>` with
//! contracts over `Seq<char>`; conversion to and from `String` sits at the
//! edges. Case folding is delegated to the standard library and named by
//! the uninterpreted function [`lower_of`].

use vstd::prelude::*;

verus! {

/// What `str::to_lowercase` returns: a function of the characters alone.
pub uninterp spec fn lower_of(s: Seq<char>) -> Seq<char>;

/// Relies on `str::to_lowercase`: the result depends only on the
/// characters of the input.
#[verifier::external_body]
pub fn lowercase(s: &str) -> (r: String)
    ensures
        r@ == lower_of(s@),
{
    s.to_lowercase()
}

/// Relies on `String`'s `FromIterator` over characters: collecting the
/// vector's characters yields the string of exactly those characters.
#[verifier::external_body]
pub fn chars_to_string(v: &Vec<char>) -> (r: String)
    ensures
        r@ == v@,
{
    v.iter().collect()
}

/// Copies the characters of a string slice into a vector.
pub fn str_chars(s: &str) -> (r: Vec<char>)
    ensures
        r@ == s@,
{
    let n = s.unicode_len();
    let mut r: Vec<char> = Vec::new();
    let mut i: usize = 0;
    while i < n
        invariant
            n == s@.len(),
            i <= n,
            r@ == s@.subrange(0, i as int),
        decreases n - i,
    {
        r.push(s.get_char(i));
        i = i + 1;
        proof {
            assert(r@ =~= s@.subrange(0, i as int));
        }
    }
    proof {
        assert(r@ =~= s@);
    }
    r
}

/// Appends all characters of `src` to `dst`.
pub fn append_chars(dst: &mut Vec<char>, src: &Vec<char>)
    ensures
        final(dst)@ == old(dst)@ + src@,
{
    let n = src.len();
    let mut i: usize = 0;
    while i < n
        invariant
            n == src@.len(),
            i <= n,
            dst@ == old(dst)@ + src@.subrange(0, i as int),
        decreases n - i,
    {
        dst.push(src[i]);
        i = i + 1;
        proof {
            assert(dst@ =~= old(dst)@ + src@.subrange(0, i as int));
        }
    }
    proof {
        assert(dst@ =~= old(dst)@ + src@);
    }
}

/// Appends the characters of a string slice to `dst`.
pub fn append_str(dst: &mut Vec<char>, src: &str)
    ensures
        final(dst)@ == old(dst)@ + src@,
{
    let cs = str_chars(src);
    append_chars(dst, &cs);
}

/// Decides equality of two character vectors.
pub fn chars_eq(a: &Vec<char>, b: &Vec<char>) -> (r: bool)
    ensures
        r == (a@ == b@),
{
    if a.len() != b.len() {
        return false;
    }
    let n = a.len();
    let mut i: usize = 0;
    while i < n
        invariant
            n == a@.len(),
            n == b@.len(),
            i <= n,
            forall|j: int| 0 <= j < i ==> a@[j] == b@[j],
        decreases n - i,
    {
        if a[i] != b[i] {
            return false;
        }
        i = i + 1;
    }
    proof {
        assert(a@ =~= b@);
    }
    true
}

/// Decides equality of two string slices.
pub fn str_eq(a: &str, b: &str) -> (r: bool)
    ensures
        r == (a@ == b@),
{
    let ac = str_chars(a);
    let bc = str_chars(b);
    chars_eq(&ac, &bc)
}

/// The needle `n` occurs in `h` at position `i`.
pub open spec fn slice_at(h: Seq<char>, n: Seq<char>, i: int) -> bool {
    0 <= i && i + n.len() <= h.len() && h.subrange(i, i + n.len()) == n
}

/// The needle occurs somewhere in the haystack.
pub open spec fn seq_has(h: Seq<char>, n: Seq<char>) -> bool {
    exists|i: int| slice_at(h, n, i)
}

/// The haystack starts with the needle.
pub open spec fn seq_starts(h: Seq<char>, n: Seq<char>) -> bool {
    n.len() <= h.len() && h.subrange(0, n.len() as int) == n
}

/// The haystack ends with the needle.
pub open spec fn seq_ends(h: Seq<char>, n: Seq<char>) -> bool {
    n.len() <= h.len() && h.subrange(h.len() - n.len(), h.len() as int) == n
}

/// Compares the slice of `h` starting at `i` against `n`.
pub fn chars_match_at(h: &Vec<char>, n: &Vec<char>, i: usize) -> (r: bool)
    requires
        i + n@.len() <= h@.len(),
    ensures
        r == slice_at(h@, n@, i as int),
{
    let m = n.len();
    let hl = h.len();
    let mut j: usize = 0;
    while j < m
        invariant
            m == n@.len(),
            hl == h@.len(),
            i + m <= hl,
            j <= m,
            forall|k: int| 0 <= k < j ==> h@[i + k] == n@[k],
        decreases m - j,
    {
        if h[i + j] != n[j] {
            proof {
                assert(h@.subrange(i as int, i + n@.len())[j as int] == h@[i + j]);
            }
            return false;
        }
        j = j + 1;
    }
    proof {
        assert(h@.subrange(i as int, i + n@.len()) =~= n@);
    }
    true
}

/// Substring test: does `n` occur anywhere in `h`?
pub fn chars_contain(h: &Vec<char>, n: &Vec<char>) -> (r: bool)
    ensures
        r == seq_has(h@, n@),
{
    if n.len() > h.len() {
        return false;
    }
    if n.len() == 0 {
        proof {
            assert(h@.subrange(0, 0) =~= n@);
            assert(slice_at(h@, n@, 0));
        }
        return true;
    }
    let last = h.len() - n.len();
    let mut i: usize = 0;
    while i <= last
        invariant
            0 < n@.len() <= h@.len(),
            h@.len() <= usize::MAX,
            last == h@.len() - n@.len(),
            i <= last + 1,
            forall|j: int| 0 <= j < i ==> !slice_at(h@, n@, j),
        decreases last + 1 - i,
    {
        if chars_match_at(h, n, i) {
            return true;
        }
        i = i + 1;
    }
    false
}

/// Prefix test.
pub fn chars_start_with(h: &Vec<char>, n: &Vec<char>) -> (r: bool)
    ensures
        r == seq_starts(h@, n@),
{
    if n.len() > h.len() {
        return false;
    }
    chars_match_at(h, n, 0)
}

/// Suffix test.
pub fn chars_end_with(h: &Vec<char>, n: &Vec<char>) -> (r: bool)
    ensures
        r == seq_ends(h@, n@),
{
    if n.len() > h.len() {
        return false;
    }
    chars_match_at(h, n, h.len() - n.len())
}

/// The whitespace characters recognized by the trimming functions.
pub open spec fn is_space(c: char) -> bool {
    c == ' ' || c == '\t' || c == '\n' || c == '\r' || c == '\u{b}' || c == '\u{c}'
}

/// Runtime counterpart of [`is_space`].
pub fn space_char(c: char) -> (r: bool)
    ensures
        r == is_space(c),
{
    c == ' ' || c == '\t' || c == '\n' || c == '\r' || c == '\u{b}' || c == '\u{c}'
}

/// Drops leading whitespace.
pub open spec fn drop_leading(s: Seq<char>) -> Seq<char>
    decreases s.len(),
{
    if s.len() > 0 && is_space(s[0]) {
        drop_leading(s.drop_first())
    } else {
        s
    }
}

/// Drops trailing whitespace.
pub open spec fn drop_trailing(s: Seq<char>) -> Seq<char>
    decreases s.len(),
{
    if s.len() > 0 && is_space(s.last()) {
        drop_trailing(s.drop_last())
    } else {
        s
    }
}

/// What trimming a character sequence yields.
pub open spec fn trim_spec(s: Seq<char>) -> Seq<char> {
    drop_trailing(drop_leading(s))
}

proof fn lemma_drop_leading_at(s: Seq<char>, k: int)
    requires
        0 <= k <= s.len(),
        forall|j: int| 0 <= j < k ==> is_space(s[j]),
        k == s.len() || !is_space(s[k]),
    ensures
        drop_leading(s) == s.subrange(k, s.len() as int),
    decreases k,
{
    if k == 0 {
        assert(s.subrange(0, s.len() as int) =~= s);
    } else {
        let t = s.drop_first();
        assert(t =~= s.subrange(1, s.len() as int));
        lemma_drop_leading_at(t, k - 1);
        assert(t.subrange(k - 1, t.len() as int) =~= s.subrange(k, s.len() as int));
    }
}

proof fn lemma_drop_trailing_at(s: Seq<char>, k: int)
    requires
        0 <= k <= s.len(),
        forall|j: int| k <= j < s.len() ==> is_space(s[j]),
        k == 0 || !is_space(s[k - 1]),
    ensures
        drop_trailing(s) == s.subrange(0, k),
    decreases s.len() - k,
{
    if k == s.len() {
        assert(s.subrange(0, s.len() as int) =~= s);
    } else {
        let t = s.drop_last();
        assert(t =~= s.subrange(0, s.len() - 1));
        lemma_drop_trailing_at(t, k);
        assert(t.subrange(0, k) =~= s.subrange(0, k));
    }
}

/// Removes leading and trailing whitespace.
pub fn trim_chars(v: &Vec<char>) -> (r: Vec<char>)
    ensures
        r@ == trim_spec(v@),
{
    let n = v.len();
    let mut lo: usize = 0;
    while lo < n && space_char(v[lo])
        invariant
            n == v@.len(),
            lo <= n,
            forall|j: int| 0 <= j < lo ==> is_space(v@[j]),
        decreases n - lo,
    {
        lo = lo + 1;
    }
    proof {
        lemma_drop_leading_at(v@, lo as int);
    }
    let ghost led = v@.subrange(lo as int, n as int);
    let mut hi: usize = n;
    while hi > lo && space_char(v[hi - 1])
        invariant
            n == v@.len(),
            lo <= hi <= n,
            forall|j: int| hi <= j < n ==> is_space(v@[j]),
        decreases hi,
    {
        hi = hi - 1;
    }
    proof {
        assert(forall|j: int| hi - lo <= j < led.len() ==> is_space(led[j]));
        lemma_drop_trailing_at(led, hi - lo);
        assert(led.subrange(0, hi - lo) =~= v@.subrange(lo as int, hi as int));
    }
    let mut r: Vec<char> = Vec::new();
    let mut i: usize = lo;
    while i < hi
        invariant
            lo <= i <= hi <= n,
            n == v@.len(),
            r@ == v@.subrange(lo as int, i as int),
        decreases hi - i,
    {
        r.push(v[i]);
        i = i + 1;
        proof {
            assert(r@ =~= v@.subrange(lo as int, i as int));
        }
    }
    r
}

/// The text with its double quotes removed. Extraction stores string
/// fields wrapped in literal quotes; comparisons must not see them.
pub open spec fn unquoted(s: Seq<char>) -> Seq<char> {
    s.filter(|c: char| c != '"')
}

/// Removes every double quote.
pub fn unquote_chars(v: &Vec<char>) -> (r: Vec<char>)
    ensures
        r@ == unquoted(v@),
{
    let n = v.len();
    let mut r: Vec<char> = Vec::new();
    let mut i: usize = 0;
    proof {
        reveal(Seq::filter);
        assert(v@.subrange(0, 0) =~= Seq::<char>::empty());
        assert(r@ =~= v@.subrange(0, 0).filter(|c: char| c != '"'));
    }
    while i < n
        invariant
            i <= n,
            n == v@.len(),
            r@ == v@.subrange(0, i as int).filter(|c: char| c != '"'),
        decreases n - i,
    {
        let c = v[i];
        if c != '"' {
            r.push(c);
        }
        i = i + 1;
        proof {
            assert(v@.subrange(0, i as int) =~= v@.subrange(0, i - 1).push(v@[i - 1]));
            lemma_filter_push(v@.subrange(0, i - 1), v@[i - 1], |c: char| c != '"');
        }
    }
    proof {
        assert(v@.subrange(0, n as int) =~= v@);
    }
    r
}

/// A character kept by [`strip_spec`]: anything but a double quote or comma.
pub open spec fn keeps_char(c: char) -> bool {
    c != '"' && c != ','
}

/// Removing every double quote and comma.
pub open spec fn strip_spec(s: Seq<char>) -> Seq<char> {
    s.filter(|c: char| keeps_char(c))
}

/// Unfolds `filter` over a pushed element.
pub proof fn lemma_filter_push<A>(s: Seq<A>, e: A, pred: spec_fn(A) -> bool)
    ensures
        s.push(e).filter(pred) == if pred(e) {
            s.filter(pred).push(e)
        } else {
            s.filter(pred)
        },
{
    reveal(Seq::filter);
    assert(s.push(e).drop_last() =~= s);
}

/// Removes every double quote and comma.
pub fn strip_chars(v: &Vec<char>) -> (r: Vec<char>)
    ensures
        r@ == strip_spec(v@),
{
    let n = v.len();
    let mut r: Vec<char> = Vec::new();
    let mut i: usize = 0;
    proof {
        reveal(Seq::filter);
        assert(v@.subrange(0, 0) =~= Seq::<char>::empty());
    }
    while i < n
        invariant
            n == v@.len(),
            i <= n,
            r@ == v@.subrange(0, i as int).filter(|c: char| keeps_char(c)),
        decreases n - i,
    {
        let c = v[i];
        if c != '"' && c != ',' {
            r.push(c);
        }
        i = i + 1;
        proof {
            assert(v@.subrange(0, i as int) =~= v@.subrange(0, i - 1).push(v@[i - 1]));
            lemma_filter_push(v@.subrange(0, i - 1), v@[i - 1], |c: char| keeps_char(c));
        }
    }
    proof {
        assert(v@.subrange(0, n as int) =~= v@);
    }
    r
}

/// The numeric value of a decimal digit character.
pub open spec fn char_digit(c: char) -> int {
    c as int - 48
}

/// Is `c` one of the ten decimal digits?
pub open spec fn is_digit_char(c: char) -> bool {
    48 <= c as int <= 57
}

/// Every position holds a digit, and there is at least one.
pub open spec fn all_digits(s: Seq<char>) -> bool {
    s.len() > 0 && forall|i: int| 0 <= i < s.len() ==> is_digit_char(s[i])
}

/// The value of a digit string, most significant digit first.
pub open spec fn digits_val(s: Seq<char>) -> nat
    decreases s.len(),
{
    if s.len() == 0 {
        0
    } else {
        digits_val(s.drop_last()) * 10 + (if char_digit(s.last()) >= 0 {
            char_digit(s.last()) as nat
        } else {
            0
        })
    }
}

/// A longer digit prefix never has a smaller value.
pub proof fn lemma_digits_val_grows(s: Seq<char>, i: int, j: int)
    requires
        0 <= i <= j <= s.len(),
    ensures
        digits_val(s.subrange(0, i)) <= digits_val(s.subrange(0, j)),
    decreases j - i,
{
    if i < j {
        lemma_digits_val_grows(s, i, j - 1);
        let p = s.subrange(0, j);
        assert(p.drop_last() =~= s.subrange(0, j - 1));
    }
}

/// What parsing an unsigned decimal integer yields: an optional leading
/// `+`, then digits, rejected on overflow of the target range.
pub open spec fn parse_uint_spec(s: Seq<char>, bound: nat) -> Option<nat> {
    let t = if s.len() > 0 && s[0] == '+' {
        s.drop_first()
    } else {
        s
    };
    if all_digits(t) && digits_val(t) <= bound {
        Some(digits_val(t))
    } else {
        None
    }
}

fn parse_digits_u64(v: &Vec<char>, from: usize, bound: u64) -> (r: Option<u64>)
    requires
        from <= v@.len(),
        bound >= 9,
    ensures
        ({
            let t = v@.subrange(from as int, v@.len() as int);
            match r {
                Some(x) => all_digits(t) && digits_val(t) == x && x <= bound,
                None => !(all_digits(t) && digits_val(t) <= bound as nat),
            }
        }),
{
    let ghost t = v@.subrange(from as int, v@.len() as int);
    let n = v.len();
    if from == n {
        return None;
    }
    let mut acc: u64 = 0;
    let mut i: usize = from;
    while i < n
        invariant
            from <= i <= n,
            n == v@.len(),
            t == v@.subrange(from as int, n as int),
            bound >= 9,
            acc <= bound,
            acc == digits_val(t.subrange(0, i - from)),
            forall|j: int| 0 <= j < i - from ==> is_digit_char(t[j]),
        decreases n - i,
    {
        let c = v[i];
        proof {
            assert(t[i - from] == v@[i as int]);
        }
        if !('0' <= c && c <= '9') {
            return None;
        }
        proof {
            assert(48 <= c as int <= 57);
        }
        let d: u64 = (c as u64) - 48;
        proof {
            assert(d <= 9);
            assert(t.subrange(0, i + 1 - from).drop_last() =~= t.subrange(0, i - from));
            assert(t.subrange(0, i + 1 - from).last() == t[i - from]);
        }
        if acc > bound / 10 || acc * 10 > bound - d {
            proof {
                assert(digits_val(t.subrange(0, i + 1 - from)) == acc * 10 + d);
                if acc > bound / 10 {
                    assert((bound / 10) * 10 + bound % 10 == bound);
                    assert(acc * 10 >= (bound / 10 + 1) * 10) by (nonlinear_arith)
                        requires
                            acc > bound / 10,
                    ;
                    assert(digits_val(t.subrange(0, i + 1 - from)) > bound);
                } else {
                    assert(digits_val(t.subrange(0, i + 1 - from)) > bound);
                }
                lemma_digits_val_grows(t, i + 1 - from, t.len() as int);
                assert(t.subrange(0, t.len() as int) =~= t);
            }
            return None;
        }
        proof {
            assert(acc * 10 <= (bound / 10) * 10) by (nonlinear_arith)
                requires
                    acc <= bound / 10,
            ;
            assert((bound / 10) * 10 <= bound);
        }
        acc = acc * 10 + d;
        i = i + 1;
    }
    proof {
        assert(t.subrange(0, n - from) =~= t);
    }
    Some(acc)
}

/// Parses an unsigned 32-bit integer, as the metadata fields store them.
pub fn parse_u32_chars(v: &Vec<char>) -> (r: Option<u32>)
    ensures
        match r {
            Some(x) => parse_uint_spec(v@, u32::MAX as nat) == Some(x as nat),
            None => parse_uint_spec(v@, u32::MAX as nat) is None,
        },
{
    let from: usize = if v.len() > 0 && v[0] == '+' {
        1
    } else {
        0
    };
    proof {
        if from == 1 {
            assert(v@.drop_first() =~= v@.subrange(1, v@.len() as int));
        } else {
            assert(v@ =~= v@.subrange(0, v@.len() as int));
        }
    }
    match parse_digits_u64(v, from, u32::MAX as u64) {
        Some(x) => Some(x as u32),
        None => None,
    }
}

/// Parses an archive entry index.
pub fn parse_usize_chars(v: &Vec<char>) -> (r: Option<usize>)
    ensures
        match r {
            Some(x) => parse_uint_spec(v@, usize::MAX as nat) == Some(x as nat),
            None => parse_uint_spec(v@, usize::MAX as nat) is None,
        },
{
    let from: usize = if v.len() > 0 && v[0] == '+' {
        1
    } else {
        0
    };
    proof {
        if from == 1 {
            assert(v@.drop_first() =~= v@.subrange(1, v@.len() as int));
        } else {
            assert(v@ =~= v@.subrange(0, v@.len() as int));
        }
    }
    if usize::BITS == 32 {
        match parse_digits_u64(v, from, u32::MAX as u64) {
            Some(x) => Some(x as usize),
            None => None,
        }
    } else {
        match parse_digits_u64(v, from, u64::MAX) {
            Some(x) => Some(x as usize),
            None => None,
        }
    }
}

/// The decimal digit character for `d`.
pub open spec fn dec_digit_char(d: int) -> char {
    if d == 0 {
        '0'
    } else if d == 1 {
        '1'
    } else if d == 2 {
        '2'
    } else if d == 3 {
        '3'
    } else if d == 4 {
        '4'
    } else if d == 5 {
        '5'
    } else if d == 6 {
        '6'
    } else if d == 7 {
        '7'
    } else if d == 8 {
        '8'
    } else {
        '9'
    }
}

/// Runtime counterpart of [`dec_digit_char`].
pub fn digit_char(d: usize) -> (r: char)
    requires
        d <= 9,
    ensures
        r == dec_digit_char(d as int),
{
    if d == 0 {
        '0'
    } else if d == 1 {
        '1'
    } else if d == 2 {
        '2'
    } else if d == 3 {
        '3'
    } else if d == 4 {
        '4'
    } else if d == 5 {
        '5'
    } else if d == 6 {
        '6'
    } else if d == 7 {
        '7'
    } else if d == 8 {
        '8'
    } else {
        '9'
    }
}

/// The decimal rendering of a natural number.
pub open spec fn dec_of(n: nat) -> Seq<char>
    decreases n,
{
    if n < 10 {
        seq![dec_digit_char(n as int)]
    } else {
        dec_of(n / 10).push(dec_digit_char((n % 10) as int))
    }
}

/// Renders a number in decimal.
pub fn usize_dec_chars(n: usize) -> (r: Vec<char>)
    ensures
        r@ == dec_of(n as nat),
    decreases n,
{
    if n < 10 {
        let c = digit_char(n);
        let mut r: Vec<char> = Vec::new();
        r.push(c);
        proof {
            assert(r@ =~= dec_of(n as nat));
        }
        r
    } else {
        let mut r = usize_dec_chars(n / 10);
        let c = digit_char(n % 10);
        r.push(c);
        r
    }
}

/// A digit's character maps back to the digit.
pub proof fn lemma_char_digit_of(d: int)
    requires
        0 <= d <= 9,
    ensures
        char_digit(dec_digit_char(d)) == d,
        is_digit_char(dec_digit_char(d)),
        dec_digit_char(d) != '+',
{
    assert('0' as int == 48);
    assert('1' as int == 49);
    assert('2' as int == 50);
    assert('3' as int == 51);
    assert('4' as int == 52);
    assert('5' as int == 53);
    assert('6' as int == 54);
    assert('7' as int == 55);
    assert('8' as int == 56);
    assert('9' as int == 57);
}

/// A decimal rendering is all digits and parses back to the same value.
pub proof fn lemma_dec_of_digits(n: nat)
    ensures
        all_digits(dec_of(n)),
        digits_val(dec_of(n)) == n,
        dec_of(n)[0] != '+',
    decreases n,
{
    if n < 10 {
        lemma_char_digit_of(n as int);
        assert(dec_of(n) =~= seq![dec_digit_char(n as int)]);
        assert(dec_of(n).drop_last() =~= Seq::<char>::empty());
        assert(digits_val(Seq::<char>::empty()) == 0);
    } else {
        lemma_dec_of_digits(n / 10);
        lemma_char_digit_of((n % 10) as int);
        let r = dec_of(n);
        assert(r.drop_last() =~= dec_of(n / 10));
        assert(digits_val(r) == digits_val(dec_of(n / 10)) * 10 + n % 10);
        assert forall|i: int| 0 <= i < r.len() implies is_digit_char(r[i]) by {
            if i < r.len() - 1 {
                assert(r[i] == dec_of(n / 10)[i]);
            }
        }
        assert(r[0] == dec_of(n / 10)[0]);
    }
}

/// The index of the first occurrence of `c` in `s`, or the length of `s`.
pub open spec fn first_at(s: Seq<char>, c: char) -> nat
    decreases s.len(),
{
    if s.len() == 0 {
        0
    } else if s[0] == c {
        0
    } else {
        1 + first_at(s.drop_first(), c)
    }
}

pub proof fn lemma_first_at_is(s: Seq<char>, c: char, k: int)
    requires
        0 <= k <= s.len(),
        forall|j: int| 0 <= j < k ==> s[j] != c,
        k == s.len() || s[k] == c,
    ensures
        first_at(s, c) == k,
    decreases k,
{
    if s.len() == 0 {
    } else if k == 0 {
    } else {
        let t = s.drop_first();
        assert(t =~= s.subrange(1, s.len() as int));
        lemma_first_at_is(t, c, k - 1);
    }
}

/// Splitting a character sequence on a delimiter.
pub open spec fn split_on(s: Seq<char>, c: char) -> Seq<Seq<char>>
    decreases s.len(),
{
    let i = first_at(s, c) as int;
    if i >= s.len() {
        seq![s]
    } else {
        seq![s.subrange(0, i)] + split_on(s.subrange(i + 1, s.len() as int), c)
    }
}

/// Splits a character vector on a delimiter; the delimiter itself is
/// dropped, and empty pieces are kept.
pub fn split_chars(v: &Vec<char>, c: char) -> (r: Vec<Vec<char>>)
    ensures
        r@.map_values(|p: Vec<char>| p@) == split_on(v@, c),
{
    let n = v.len();
    let mut r: Vec<Vec<char>> = Vec::new();
    let mut cur: Vec<char> = Vec::new();
    let mut seg: usize = 0;
    let mut i: usize = 0;
    proof {
        assert(v@.subrange(0, n as int) =~= v@);
        assert(r@.map_values(|p: Vec<char>| p@) =~= Seq::<Seq<char>>::empty());
        assert(Seq::<Seq<char>>::empty() + split_on(v@, c) =~= split_on(v@, c));
        assert(cur@ =~= v@.subrange(0, 0));
    }
    while i < n
        invariant
            seg <= i <= n,
            n == v@.len(),
            cur@ == v@.subrange(seg as int, i as int),
            forall|j: int| seg <= j < i ==> v@[j] != c,
            split_on(v@, c) == r@.map_values(|p: Vec<char>| p@) + split_on(
                v@.subrange(seg as int, n as int),
                c,
            ),
        decreases n - i,
    {
        let ch = v[i];
        if ch == c {
            let ghost prev = r@.map_values(|p: Vec<char>| p@);
            let ghost curv = cur@;
            proof {
                let rem = v@.subrange(seg as int, n as int);
                lemma_first_at_is(rem, c, i - seg);
                assert(rem.subrange(0, i - seg) =~= curv);
                assert(rem.subrange(i - seg + 1, rem.len() as int) =~= v@.subrange(
                    i + 1,
                    n as int,
                ));
                assert(split_on(rem, c) == seq![curv] + split_on(v@.subrange(i + 1, n as int), c));
            }
            r.push(cur);
            proof {
                assert(r@.map_values(|p: Vec<char>| p@) =~= prev.push(curv));
                assert(prev + (seq![curv] + split_on(v@.subrange(i + 1, n as int), c)) =~= prev.push(
                    curv,
                ) + split_on(v@.subrange(i + 1, n as int), c));
            }
            cur = Vec::new();
            seg = i + 1;
            i = i + 1;
            proof {
                assert(cur@ =~= v@.subrange(seg as int, i as int));
            }
        } else {
            cur.push(ch);
            i = i + 1;
            proof {
                assert(cur@ =~= v@.subrange(seg as int, i as int));
            }
        }
    }
    let ghost prev = r@.map_values(|p: Vec<char>| p@);
    let ghost curv = cur@;
    proof {
        let rem = v@.subrange(seg as int, n as int);
        lemma_first_at_is(rem, c, n - seg);
        assert(split_on(rem, c) == seq![rem]);
        assert(rem =~= curv);
    }
    r.push(cur);
    proof {
        assert(r@.map_values(|p: Vec<char>| p@) =~= prev.push(curv));
        assert(prev + seq![curv] =~= prev.push(curv));
    }
    r
}

} // verus!
