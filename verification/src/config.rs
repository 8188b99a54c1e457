use vstd::prelude::*;
use vstd::string::StrSliceExecFns;

verus! {

/// A decimal digit.
pub open spec fn is_digit(c: char) -> bool {
    '0' <= c && c <= '9'
}

/// The value of one decimal digit.
pub open spec fn digit_val(c: char) -> int {
    c as u32 - '0' as u32
}

/// Every character of the sequence is a decimal digit.
pub open spec fn all_digits(s: Seq<char>) -> bool {
    forall|j: int| 0 <= j < s.len() ==> is_digit(s[j])
}

/// Every character of the sequence is the digit zero.
pub open spec fn zero_digits(s: Seq<char>) -> bool {
    forall|j: int| 0 <= j < s.len() ==> s[j] == '0'
}

/// The number a digit string denotes, most significant digit first.
pub open spec fn digits_value(s: Seq<char>) -> int
    decreases s.len(),
{
    if s.len() == 0 {
        0
    } else {
        digits_value(s.drop_last()) * 10 + digit_val(s.last())
    }
}

/// Ten to the power `n`.
pub open spec fn pow10(n: nat) -> int
    decreases n,
{
    if n == 0 {
        1
    } else {
        10 * pow10((n - 1) as nat)
    }
}

/// The input starts with an explicit sign.
pub open spec fn has_sign(s: Seq<char>) -> bool {
    s.len() > 0 && (s[0] == '+' || s[0] == '-')
}

/// The input denotes a negative (or negative-zero) number.
pub open spec fn is_negative(s: Seq<char>) -> bool {
    s.len() > 0 && s[0] == '-'
}

/// The input with its sign, if any, stripped.
pub open spec fn unsigned_body(s: Seq<char>) -> Seq<char> {
    if has_sign(s) {
        s.subrange(1, s.len() as int)
    } else {
        s
    }
}

/// The unsigned text `t` reads as a decimal number split at position `k`:
/// digits up to `k`, then either the end of the text or a decimal point
/// followed by digits, with at least one digit in all.
pub open spec fn split_at_ok(t: Seq<char>, k: int) -> bool {
    &&& 0 <= k <= t.len()
    &&& all_digits(t.subrange(0, k))
    &&& if k == t.len() {
        t.len() >= 1
    } else {
        &&& t[k] == '.'
        &&& all_digits(t.subrange(k + 1, t.len() as int))
        &&& t.len() >= 2
    }
}

/// The unsigned text reads as a plain decimal number.
pub open spec fn numeric(t: Seq<char>) -> bool {
    exists|k: int| split_at_ok(t, k)
}

/// The digits before the split.
pub open spec fn int_part(t: Seq<char>, k: int) -> Seq<char> {
    t.subrange(0, k)
}

/// The digits after the split's decimal point, if any.
pub open spec fn frac_part(t: Seq<char>, k: int) -> Seq<char> {
    if k == t.len() {
        Seq::empty()
    } else {
        t.subrange(k + 1, t.len() as int)
    }
}

/// The value of a fraction-digit string in thousandths, resolved to the
/// first three digits: later digits are ignored.
pub open spec fn frac_thousandths(fp: Seq<char>) -> int {
    if fp.len() >= 3 {
        digits_value(fp.take(3))
    } else if fp.len() == 2 {
        digits_value(fp) * 10
    } else if fp.len() == 1 {
        digits_value(fp) * 100
    } else {
        0
    }
}

/// The granularity a split number denotes, in thousandths.
pub open spec fn thousandths_at(t: Seq<char>, k: int) -> int {
    digits_value(int_part(t, k)) * 1000 + frac_thousandths(frac_part(t, k))
}

/// The split number lies in the closed unit interval: a negative one only
/// when every digit is zero, a positive one when its integer part is zero,
/// or one with nothing behind it.
pub open spec fn within_unit(t: Seq<char>, k: int, neg: bool) -> bool {
    if neg {
        zero_digits(int_part(t, k)) && zero_digits(frac_part(t, k))
    } else {
        &&& digits_value(int_part(t, k)) <= 1
        &&& (digits_value(int_part(t, k)) == 1 ==> zero_digits(frac_part(t, k)))
    }
}

/// The whole input denotes a granularity inside [0, 1].
pub open spec fn granularity_ok(s: Seq<char>) -> bool {
    exists|k: int|
        split_at_ok(unsigned_body(s), k) && within_unit(unsigned_body(s), k, is_negative(s))
}

/// Saturation of a number at two: all that the range check needs of an
/// integer part.
pub open spec fn sat2(v: int) -> int {
    if v >= 2 {
        2
    } else {
        v
    }
}

/// Appending a digit multiplies a digit string's value by ten and adds the
/// digit.
pub proof fn lemma_digits_value_push(s: Seq<char>, c: char)
    ensures
        digits_value(s.push(c)) == digits_value(s) * 10 + digit_val(c),
{
    assert(s.push(c).drop_last() =~= s);
    assert(s.push(c).last() == c);
}

/// A digit string's value is non-negative.
pub proof fn lemma_digits_value_nonneg(s: Seq<char>)
    requires
        all_digits(s),
    ensures
        digits_value(s) >= 0,
    decreases s.len(),
{
    if s.len() > 0 {
        assert(all_digits(s.drop_last()));
        lemma_digits_value_nonneg(s.drop_last());
        assert(is_digit(s.last()));
    }
}

/// A digit string of length `n` stays below ten to the `n`.
pub proof fn lemma_digits_value_bound(s: Seq<char>)
    requires
        all_digits(s),
    ensures
        digits_value(s) < pow10(s.len()),
    decreases s.len(),
{
    if s.len() > 0 {
        assert(all_digits(s.drop_last()));
        lemma_digits_value_bound(s.drop_last());
        assert(is_digit(s.last()));
    }
}

/// A string of zero digits denotes zero.
pub proof fn lemma_zero_digits_value(s: Seq<char>)
    requires
        zero_digits(s),
    ensures
        digits_value(s) == 0,
    decreases s.len(),
{
    if s.len() > 0 {
        assert(zero_digits(s.drop_last()));
        lemma_zero_digits_value(s.drop_last());
        assert(s.last() == '0');
    }
}

/// A digit string followed by one more character is all zeros exactly when
/// both the string and the character are.
pub proof fn lemma_zero_digits_push(s: Seq<char>, c: char)
    ensures
        zero_digits(s.push(c)) == (zero_digits(s) && c == '0'),
{
    let t = s.push(c);
    if zero_digits(s) && c == '0' {
        assert forall|j: int| 0 <= j < t.len() implies t[j] == '0' by {
            if j < s.len() {
                assert(t[j] == s[j]);
            } else {
                assert(t[j] == c);
            }
        }
    }
    if zero_digits(t) {
        assert forall|j: int| 0 <= j < s.len() implies s[j] == '0' by {
            assert(t[j] == s[j]);
        }
        assert(c == t[s.len() as int]);
    }
}

/// A valid split position is unique: digits carry no decimal point.
pub proof fn lemma_split_unique(t: Seq<char>, k1: int, k2: int)
    requires
        split_at_ok(t, k1),
        split_at_ok(t, k2),
    ensures
        k1 == k2,
{
    if k1 < k2 {
        assert(is_digit(t.subrange(0, k2)[k1]));
        assert(t[k1] == '.');
    } else if k2 < k1 {
        assert(is_digit(t.subrange(0, k1)[k2]));
        assert(t[k2] == '.');
    }
}

/// How one more fraction digit moves the value in thousandths: the first
/// three digits weigh 100, 10 and 1; later digits weigh nothing.
pub proof fn lemma_frac_thousandths_push(fp: Seq<char>, c: char)
    ensures
        fp.len() == 0 ==> frac_thousandths(fp.push(c)) == digit_val(c) * 100,
        fp.len() == 1 ==> frac_thousandths(fp.push(c)) == frac_thousandths(fp) + digit_val(c)
            * 10,
        fp.len() == 2 ==> frac_thousandths(fp.push(c)) == frac_thousandths(fp) + digit_val(c),
        fp.len() >= 3 ==> frac_thousandths(fp.push(c)) == frac_thousandths(fp),
{
    lemma_digits_value_push(fp, c);
    if fp.len() == 2 {
        assert(fp.push(c).take(3) =~= fp.push(c));
    }
    if fp.len() >= 3 {
        assert(fp.push(c).take(3) =~= fp.take(3));
    }
}

/// A fraction-digit string resolves to fewer than 1000 thousandths, and to
/// 0 when all its digits are zero.
pub proof fn lemma_frac_thousandths_bounds(fp: Seq<char>)
    requires
        all_digits(fp),
    ensures
        0 <= frac_thousandths(fp) <= 999,
        zero_digits(fp) ==> frac_thousandths(fp) == 0,
{
    assert(pow10(0) == 1);
    assert(pow10(1) == 10);
    assert(pow10(2) == 100);
    assert(pow10(3) == 1000);
    if fp.len() >= 3 {
        assert(all_digits(fp.take(3)));
        lemma_digits_value_bound(fp.take(3));
        lemma_digits_value_nonneg(fp.take(3));
        if zero_digits(fp) {
            assert(zero_digits(fp.take(3)));
            lemma_zero_digits_value(fp.take(3));
        }
    } else {
        lemma_digits_value_bound(fp);
        lemma_digits_value_nonneg(fp);
        if zero_digits(fp) {
            lemma_zero_digits_value(fp);
        }
    }
}

/// Where the frames come from: a file on disk, or a webcam device.
/// Webcam capture is an accepted configuration name, but no capture path
/// exists; selecting it yields an explicit unsupported-configuration error.
#[derive(Clone, Copy, PartialEq, Eq, Structural, Debug)]
pub enum MediaSource {
    File,
    WebCam,
}

/// How a source pixel's color is mapped to the color of its glyph.
#[derive(Clone, Copy, PartialEq, Eq, Structural, Debug)]
pub enum ColorScheme {
    Original,
    BlackAndWhite,
    Pastel,
}

/// The fraction of the master glyph ramp that rendering retains, in
/// thousandths: 0 stands for 0.0 (a single glyph), 1000 for 1.0 (the full
/// ramp). A value is valid once it lies in that closed range; every
/// granularity is validated before it reaches the renderer.
#[derive(Clone, Copy, PartialEq, Eq, Structural, Debug)]
pub struct Granularity {
    pub thousandths: u16,
}

impl Granularity {
    /// A granularity is usable only in [0, 1], that is, at most 1000
    /// thousandths.
    pub open spec fn valid(self) -> bool {
        self.thousandths <= 1000
    }

    /// The granularity standing for the full ramp, 1.0.
    pub fn full() -> (g: Granularity)
        ensures
            g.valid(),
            g.thousandths == 1000,
    {
        Granularity { thousandths: 1000 }
    }

    /// Builds a granularity from thousandths, refusing values above 1.0.
    pub fn from_thousandths(thousandths: u16) -> (r: Option<Granularity>)
        ensures
            r is Some <==> thousandths <= 1000,
            r is Some ==> r->0 == (Granularity { thousandths }) && r->0.valid(),
    {
        if thousandths <= 1000 {
            Some(Granularity { thousandths })
        } else {
            None
        }
    }
}

/// Validates a granularity given as decimal text: accepts exactly the
/// plain decimal numbers inside [0, 1], resolved to thousandths (digits
/// past the third fraction place are ignored), and names what was wrong
/// with everything else.
#[verifier::rlimit(50)]
pub fn validate_granularity(s: &str) -> (r: Result<Granularity, String>)
    ensures
        r is Ok <==> granularity_ok(s@),
        r is Ok ==> r->Ok_0.valid(),
        forall|k: int|
            r is Ok && split_at_ok(unsigned_body(s@), k) ==> r->Ok_0.thousandths as int
                == thousandths_at(unsigned_body(s@), k),
        r is Err && !numeric(unsigned_body(s@)) ==> r->Err_0@ == "Must be a number"@,
        r is Err && numeric(unsigned_body(s@)) ==> r->Err_0@ == "Granularity must be in 0..1"@,
{
    let n = s.unicode_len();
    let mut start: usize = 0;
    let mut neg = false;
    if n > 0 {
        let c0 = s.get_char(0);
        if c0 == '-' {
            neg = true;
            start = 1;
        } else if c0 == '+' {
            start = 1;
        }
    }
    let ghost body = unsigned_body(s@);
    proof {
        assert(body =~= s@.subrange(start as int, n as int));
        assert(neg == is_negative(s@));
    }
    let mut i = start;
    let mut has_dot = false;
    let mut dot_idx: usize = 0;
    let mut ipsat: u16 = 0;
    let mut ip_zero = true;
    let mut fp_zero = true;
    let mut f3: u16 = 0;
    while i < n
        invariant
            start <= i <= n,
            n == s@.len(),
            body == s@.subrange(start as int, n as int),
            body == unsigned_body(s@),
            neg == is_negative(s@),
            has_dot ==> start <= dot_idx < i && s@[dot_idx as int] == '.',
            has_dot ==> forall|j: int| start <= j < dot_idx ==> is_digit(s@[j]),
            has_dot ==> forall|j: int| dot_idx < j < i ==> is_digit(s@[j]),
            !has_dot ==> forall|j: int| start <= j < i ==> is_digit(s@[j]),
            ({
                let ip = if has_dot {
                    s@.subrange(start as int, dot_idx as int)
                } else {
                    s@.subrange(start as int, i as int)
                };
                &&& ipsat as int == sat2(digits_value(ip))
                &&& ip_zero == zero_digits(ip)
                &&& ipsat <= 2
            }),
            ({
                let fp = if has_dot {
                    s@.subrange(dot_idx as int + 1, i as int)
                } else {
                    Seq::<char>::empty()
                };
                &&& f3 as int == frac_thousandths(fp)
                &&& fp_zero == zero_digits(fp)
                &&& f3 <= 999
            }),
        decreases n - i,
    {
        let ghost ip_old = if has_dot {
            s@.subrange(start as int, dot_idx as int)
        } else {
            s@.subrange(start as int, i as int)
        };
        let ghost fp_old = if has_dot {
            s@.subrange(dot_idx as int + 1, i as int)
        } else {
            Seq::<char>::empty()
        };
        let c = s.get_char(i);
        if c == '.' {
            if has_dot {
                proof {
                    let p0 = i - start;
                    let d0 = dot_idx - start;
                    assert forall|k: int| !split_at_ok(body, k) by {
                        if split_at_ok(body, k) {
                            if k < d0 {
                                assert(is_digit(body.subrange(0, d0 as int)[k]));
                            } else if k == d0 {
                                assert(is_digit(
                                    body.subrange(d0 + 1, body.len() as int)[p0 - d0 - 1],
                                ));
                            } else {
                                assert(is_digit(body.subrange(0, k)[d0 as int]));
                            }
                        }
                    }
                    assert(!numeric(body));
                    assert(!granularity_ok(s@)) by {
                        if granularity_ok(s@) {
                            let k = choose|k: int|
                                split_at_ok(unsigned_body(s@), k) && within_unit(
                                    unsigned_body(s@),
                                    k,
                                    is_negative(s@),
                                );
                            assert(!split_at_ok(body, k));
                        }
                    }
                }
                return Err("Must be a number".to_owned());
            }
            has_dot = true;
            dot_idx = i;
            proof {
                assert(s@.subrange(start as int, dot_idx as int) =~= ip_old);
                assert(s@.subrange(dot_idx as int + 1, i as int + 1) =~= Seq::<char>::empty());
            }
        } else if c >= '0' && c <= '9' {
            let d: u16 = (c as u32 - '0' as u32) as u16;
            if !has_dot {
                proof {
                    lemma_digits_value_push(ip_old, c);
                    lemma_digits_value_nonneg(ip_old);
                    assert(s@.subrange(start as int, i as int + 1) =~= ip_old.push(c));
                }
                let v: u16 = ipsat * 10 + d;
                ipsat = if v >= 2 {
                    2
                } else {
                    v
                };
                ip_zero = ip_zero && c == '0';
            } else {
                proof {
                    assert(all_digits(fp_old));
                    lemma_frac_thousandths_push(fp_old, c);
                    lemma_frac_thousandths_bounds(fp_old);
                    if fp_old.len() == 1 {
                        lemma_digits_value_bound(fp_old);
                        lemma_digits_value_nonneg(fp_old);
                        assert(pow10(1) == 10) by {
                            assert(pow10(0) == 1);
                        }
                    }
                    assert(s@.subrange(dot_idx as int + 1, i as int + 1) =~= fp_old.push(c));
                }
                let fplen = i - dot_idx;
                if fplen == 1 {
                    f3 = d * 100;
                } else if fplen == 2 {
                    f3 = f3 + d * 10;
                } else if fplen == 3 {
                    f3 = f3 + d;
                }
                fp_zero = fp_zero && c == '0';
                proof {
                    let fp_new = s@.subrange(dot_idx as int + 1, i as int + 1);
                    assert(fp_new == fp_old.push(c));
                    assert(f3 as int == frac_thousandths(fp_new));
                    assert(f3 <= 999);
                    lemma_zero_digits_push(fp_old, c);
                    assert(fp_zero == zero_digits(fp_new));
                }
            }
        } else {
            proof {
                let p0 = i - start;
                assert(body[p0 as int] == s@[i as int]);
                assert forall|k: int| !split_at_ok(body, k) by {
                    if split_at_ok(body, k) {
                        if k < p0 {
                            if k == body.len() {
                            } else if has_dot && k == dot_idx - start {
                                assert(is_digit(
                                    body.subrange(k + 1, body.len() as int)[p0 - k - 1],
                                ));
                            } else {
                                assert(is_digit(s@[start + k]));
                                assert(body[k] == '.');
                            }
                        } else {
                            assert(is_digit(body.subrange(0, k)[p0 as int]));
                        }
                    }
                }
                assert(!numeric(body));
                assert(!granularity_ok(s@)) by {
                    if granularity_ok(s@) {
                        let k = choose|k: int|
                            split_at_ok(unsigned_body(s@), k) && within_unit(
                                unsigned_body(s@),
                                k,
                                is_negative(s@),
                            );
                        assert(!split_at_ok(body, k));
                    }
                }
            }
            return Err("Must be a number".to_owned());
        }
        i = i + 1;
    }
    let digit_total = (n - start) - (if has_dot {
        1
    } else {
        0
    });
    if digit_total == 0 {
        proof {
            assert forall|k: int| !split_at_ok(body, k) by {
                if split_at_ok(body, k) {
                    if body.len() == 1 {
                        assert(is_digit(body.subrange(0, 1)[0]));
                    }
                }
            }
            assert(!numeric(body));
            assert(!granularity_ok(s@)) by {
                if granularity_ok(s@) {
                    let k = choose|k: int|
                        split_at_ok(unsigned_body(s@), k) && within_unit(
                            unsigned_body(s@),
                            k,
                            is_negative(s@),
                        );
                    assert(!split_at_ok(body, k));
                }
            }
        }
        return Err("Must be a number".to_owned());
    }
    let ghost k_rel: int = if has_dot {
        dot_idx - start
    } else {
        n - start
    };
    let ghost ip = int_part(body, k_rel);
    let ghost fp = frac_part(body, k_rel);
    proof {
        if has_dot {
            assert(ip =~= s@.subrange(start as int, dot_idx as int));
            assert(fp =~= s@.subrange(dot_idx as int + 1, n as int));
        } else {
            assert(ip =~= s@.subrange(start as int, n as int));
            assert(fp =~= Seq::<char>::empty());
        }
        assert(split_at_ok(body, k_rel));
        assert(numeric(body));
        lemma_digits_value_nonneg(ip);
        lemma_frac_thousandths_bounds(fp);
        if ip_zero {
            lemma_zero_digits_value(ip);
        }
        assert forall|k: int| split_at_ok(body, k) implies k == k_rel by {
            lemma_split_unique(body, k, k_rel);
        }
    }
    let ok = if neg {
        ip_zero && fp_zero
    } else {
        ipsat == 0 || (ipsat == 1 && fp_zero)
    };
    if ok {
        proof {
            if neg {
                lemma_zero_digits_value(ip);
            }
            if fp_zero {
                lemma_frac_thousandths_bounds(fp);
            }
            assert(within_unit(body, k_rel, neg));
            assert(granularity_ok(s@)) by {
                assert(split_at_ok(unsigned_body(s@), k_rel) && within_unit(
                    unsigned_body(s@),
                    k_rel,
                    is_negative(s@),
                ));
            }
        }
        let milli: u16 = ipsat * 1000 + f3;
        proof {
            assert(milli as int == thousandths_at(body, k_rel));
            assert(milli <= 1000);
        }
        Ok(Granularity { thousandths: milli })
    } else {
        proof {
            assert(!within_unit(body, k_rel, neg));
            assert(!granularity_ok(s@)) by {
                if granularity_ok(s@) {
                    let k = choose|k: int|
                        split_at_ok(unsigned_body(s@), k) && within_unit(
                            unsigned_body(s@),
                            k,
                            is_negative(s@),
                        );
                    lemma_split_unique(body, k, k_rel);
                }
            }
        }
        Err("Granularity must be in 0..1".to_owned())
    }
}

impl ColorScheme {
    /// The scheme's command-line name.
    pub open spec fn name_spec(self) -> Seq<char> {
        match self {
            ColorScheme::Original => "original"@,
            ColorScheme::BlackAndWhite => "black-and-white"@,
            ColorScheme::Pastel => "pastel"@,
        }
    }

    /// The scheme's command-line name, as displayed to the user.
    pub fn name(&self) -> (s: &'static str)
        ensures
            s@ == self.name_spec(),
    {
        match self {
            ColorScheme::Original => "original",
            ColorScheme::BlackAndWhite => "black-and-white",
            ColorScheme::Pastel => "pastel",
        }
    }
}

impl MediaSource {
    /// The source's command-line name.
    pub open spec fn name_spec(self) -> Seq<char> {
        match self {
            MediaSource::File => "file"@,
            MediaSource::WebCam => "web-cam"@,
        }
    }

    /// The source's command-line name, as displayed to the user.
    pub fn name(&self) -> (s: &'static str)
        ensures
            s@ == self.name_spec(),
    {
        match self {
            MediaSource::File => "file",
            MediaSource::WebCam => "web-cam",
        }
    }
}

} // verus!
