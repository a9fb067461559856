//! Parsing of the container runtime's usage report: the output of its
//! disk-usage query, one line per resource kind in the form
//! `type|reclaimable`, where the reclaimable column starts with a
//! human-readable size such as `1.5GB`. The parser sums the
//! reclaimable sizes and assembles a recommendation describing them.

use vstd::prelude::*;

use crate::dashboard::rec_model;
use crate::dashboard::RecModel;
use crate::entities::Recommendation;
use crate::entities::RecommendationCategory;
use crate::textutil::ends_with_seq;
use crate::textutil::ends_with_sub;

verus! {

/// The whitespace the size parser trims.
pub open spec fn is_space(c: char) -> bool {
    c == ' ' || c == '\t' || c == '\n' || c == '\r'
}

fn is_space_exec(c: char) -> (r: bool)
    ensures
        r == is_space(c),
{
    c == ' ' || c == '\t' || c == '\n' || c == '\r'
}

/// `s` without leading whitespace.
pub open spec fn trim_front(s: Seq<char>) -> Seq<char>
    decreases s.len(),
{
    if s.len() > 0 && is_space(s[0]) {
        trim_front(s.drop_first())
    } else {
        s
    }
}

/// `s` without trailing whitespace.
pub open spec fn trim_back(s: Seq<char>) -> Seq<char>
    decreases s.len(),
{
    if s.len() > 0 && is_space(s.last()) {
        trim_back(s.drop_last())
    } else {
        s
    }
}

/// `s` without leading and trailing whitespace.
pub open spec fn trim_seq(s: Seq<char>) -> Seq<char> {
    trim_back(trim_front(s))
}

proof fn lemma_trim_front_at(s: Seq<char>, a: int)
    requires
        0 <= a <= s.len(),
        forall|j: int| 0 <= j < a ==> is_space(s[j]),
        a < s.len() ==> !is_space(s[a]),
    ensures
        trim_front(s) == s.skip(a),
    decreases a,
{
    if a == 0 {
        assert(s.skip(0) =~= s);
    } else {
        assert(is_space(s[0]));
        lemma_trim_front_at(s.drop_first(), a - 1);
        assert(s.drop_first().skip(a - 1) =~= s.skip(a));
    }
}

proof fn lemma_trim_back_at(s: Seq<char>, b: int)
    requires
        0 <= b <= s.len(),
        forall|j: int| b <= j < s.len() ==> is_space(s[j]),
        b > 0 ==> !is_space(s[b - 1]),
    ensures
        trim_back(s) == s.take(b),
    decreases s.len(),
{
    if b == s.len() {
        if s.len() == 0 || !is_space(s.last()) {
            assert(s.take(b) =~= s);
        } else {
            assert(false);
        }
    } else {
        assert(is_space(s.last()));
        lemma_trim_back_at(s.drop_last(), b);
        assert(s.drop_last().take(b) =~= s.take(b));
    }
}

/// Trims whitespace from both ends.
fn trim_str(s: &str) -> (r: String)
    ensures
        r@ == trim_seq(s@),
{
    let len = s.unicode_len();
    let mut a: usize = 0;
    while a < len && is_space_exec(s.get_char(a))
        invariant
            len == s@.len(),
            a <= len,
            forall|j: int| 0 <= j < a ==> is_space(s@[j]),
        decreases len - a,
    {
        a += 1;
    }
    proof {
        lemma_trim_front_at(s@, a as int);
    }
    if a == len {
        proof {
            assert(s@.skip(a as int).len() == 0);
            assert(trim_back(s@.skip(a as int)) =~= s@.skip(a as int));
        }
        let empty = String::new();
        proof {
            assert(empty@ =~= trim_seq(s@));
        }
        return empty;
    }
    let mut b: usize = len;
    while b > a && is_space_exec(s.get_char(b - 1))
        invariant
            len == s@.len(),
            a <= b <= len,
            forall|j: int| b <= j < len ==> is_space(s@[j]),
        decreases b,
    {
        b -= 1;
    }
    proof {
        let front = s@.skip(a as int);
        assert(forall|j: int| 0 <= j < front.len() ==> front[j] == s@[a + j]);
        assert(b > a) by {
            if b == a {
                assert(is_space(s@[a as int]));
            }
        }
        lemma_trim_back_at(front, b - a);
        assert(front.take(b - a) =~= s@.subrange(a as int, b as int));
    }
    let piece = s.substring_char(a, b);
    piece.to_owned()
}

/// A decimal digit.
pub open spec fn is_digit(c: char) -> bool {
    '0' <= c && c <= '9'
}

/// Its numeric value.
pub open spec fn digit_val(c: char) -> int {
    c as int - '0' as int
}

/// Every character is a digit.
pub open spec fn all_digits(s: Seq<char>) -> bool {
    forall|i: int| 0 <= i < s.len() ==> is_digit(#[trigger] s[i])
}

/// The value of a digit string, most significant digit first.
pub open spec fn digits_val(s: Seq<char>) -> int
    decreases s.len(),
{
    if s.len() == 0 {
        0
    } else {
        digits_val(s.drop_last()) * 10 + digit_val(s.last())
    }
}

/// Position of the first occurrence of `c`, or -1.
pub open spec fn find_char(s: Seq<char>, c: char) -> int
    decreases s.len(),
{
    if s.len() == 0 {
        -1
    } else if s[0] == c {
        0
    } else {
        let r = find_char(s.drop_first(), c);
        if r < 0 {
            -1
        } else {
            r + 1
        }
    }
}

proof fn lemma_find_char_none(s: Seq<char>, c: char)
    requires
        forall|j: int| 0 <= j < s.len() ==> s[j] != c,
    ensures
        find_char(s, c) == -1,
    decreases s.len(),
{
    if s.len() > 0 {
        lemma_find_char_none(s.drop_first(), c);
    }
}

proof fn lemma_find_char_at(s: Seq<char>, c: char, k: int)
    requires
        0 <= k < s.len(),
        s[k] == c,
        forall|j: int| 0 <= j < k ==> s[j] != c,
    ensures
        find_char(s, c) == k,
    decreases k,
{
    if k > 0 {
        lemma_find_char_at(s.drop_first(), c, k - 1);
    }
}

/// First position of `c` in the string.
fn find_char_str(s: &str, c: char) -> (r: Option<usize>)
    ensures
        match r {
            Some(i) => i < s@.len() && find_char(s@, c) == i,
            None => find_char(s@, c) == -1,
        },
{
    let len = s.unicode_len();
    let mut i: usize = 0;
    while i < len
        invariant
            len == s@.len(),
            i <= len,
            forall|j: int| 0 <= j < i ==> s@[j] != c,
        decreases len - i,
    {
        if s.get_char(i) == c {
            proof {
                lemma_find_char_at(s@, c, i as int);
            }
            return Some(i);
        }
        i += 1;
    }
    proof {
        lemma_find_char_none(s@, c);
    }
    None
}

/// Powers of ten.
pub open spec fn pow10(k: int) -> int
    decreases k,
{
    if k <= 0 {
        1
    } else {
        10 * pow10(k - 1)
    }
}

/// A plain decimal number: digits with at most one dot, at least one
/// digit, and at most nine fractional digits.
pub open spec fn valid_decimal(num: Seq<char>) -> bool {
    let d = find_char(num, '.');
    if d < 0 {
        num.len() > 0 && all_digits(num)
    } else {
        let ip = num.subrange(0, d);
        let fp = num.subrange(d + 1, num.len() as int);
        &&& find_char(fp, '.') < 0
        &&& all_digits(ip)
        &&& all_digits(fp)
        &&& ip.len() + fp.len() > 0
        &&& fp.len() <= 9
    }
}

/// The number's value scaled by `unit`, rounded down.
pub open spec fn decimal_scaled(num: Seq<char>, unit: int) -> int {
    let d = find_char(num, '.');
    if d < 0 {
        digits_val(num) * unit
    } else {
        let ip = num.subrange(0, d);
        let fp = num.subrange(d + 1, num.len() as int);
        digits_val(ip) * unit + (digits_val(fp) * unit) / pow10(fp.len() as int)
    }
}

/// Saturation at the largest representable size.
pub open spec fn sat64(v: int) -> int {
    if v > u64::MAX {
        u64::MAX as int
    } else {
        v
    }
}

/// The size a human-readable string denotes, in bytes: the trimmed
/// string is read as a plain decimal number with a binary-unit suffix
/// `GB`, `MB`, `KB` or `B` (none means bytes), and anything else —
/// the empty string, a malformed number, stray characters — counts as
/// zero.
pub open spec fn spec_parse_human_size(s: Seq<char>) -> int {
    let t = trim_seq(s);
    if t.len() == 0 {
        0
    } else if ends_with_seq(t, "GB"@) {
        scaled_or_zero(t.take(t.len() - 2), 0x40000000)
    } else if ends_with_seq(t, "MB"@) {
        scaled_or_zero(t.take(t.len() - 2), 0x100000)
    } else if ends_with_seq(t, "KB"@) {
        scaled_or_zero(t.take(t.len() - 2), 0x400)
    } else if ends_with_seq(t, "B"@) {
        scaled_or_zero(t.take(t.len() - 1), 1)
    } else {
        scaled_or_zero(t, 1)
    }
}

/// The scaled value of a valid number, zero otherwise.
pub open spec fn scaled_or_zero(num: Seq<char>, unit: int) -> int {
    if valid_decimal(num) {
        decimal_scaled(num, unit)
    } else {
        0
    }
}

/// Digit-string accumulator: the value so far, capped.
struct DigitAcc {
    value: u64,
    overflow: bool,
    seen: usize,
}

/// Reads the digit characters of `s` between `from` and `to`.
/// Returns the value (saturated), whether it overflowed, and whether
/// every character was a digit.
fn read_digits(s: &str, from: usize, to: usize) -> (r: (u64, bool, bool))
    requires
        from <= to <= s@.len(),
        s@.len() <= usize::MAX,
    ensures
        r.2 == all_digits(s@.subrange(from as int, to as int)),
        r.2 ==> {
            let v = digits_val(s@.subrange(from as int, to as int));
            (!r.1 ==> r.0 == v && v <= u64::MAX) && (r.1 ==> v > u64::MAX)
        },
{
    let ghost whole = s@.subrange(from as int, to as int);
    let mut value: u64 = 0;
    let mut overflow = false;
    let mut i: usize = from;
    while i < to
        invariant
            from <= i <= to <= s@.len(),
            s@.len() <= usize::MAX,
            whole == s@.subrange(from as int, to as int),
            all_digits(s@.subrange(from as int, i as int)),
            !overflow ==> value == digits_val(s@.subrange(from as int, i as int)) && digits_val(
                s@.subrange(from as int, i as int),
            ) <= u64::MAX,
            overflow ==> digits_val(s@.subrange(from as int, i as int)) > u64::MAX,
        decreases to - i,
    {
        let c = s.get_char(i);
        let ghost prefix = s@.subrange(from as int, i as int);
        let ghost next = s@.subrange(from as int, i + 1);
        proof {
            assert(next.drop_last() =~= prefix);
            assert(next.last() == s@[i as int]);
        }
        if c < '0' || c > '9' {
            return (0, false, false);
        }
        let d: u64 = (c as u32 as u64) - ('0' as u32 as u64);
        proof {
            assert(d == digit_val(s@[i as int]));
            assert(0 <= digit_val(s@[i as int]) <= 9);
        }
        if !overflow {
            match value.checked_mul(10) {
                Some(v10) => match v10.checked_add(d) {
                    Some(v) => {
                        value = v;
                    },
                    None => {
                        overflow = true;
                    },
                },
                None => {
                    overflow = true;
                },
            }
        }
        proof {
            if overflow {
                assert(digits_val(next) > u64::MAX);
            }
        }
        i += 1;
    }
    proof {
        assert(s@.subrange(from as int, to as int) == whole);
    }
    (value, overflow, true)
}

proof fn lemma_pow10_values()
    ensures
        pow10(0) == 1,
        pow10(1) == 10,
        pow10(2) == 100,
        pow10(3) == 1000,
        pow10(4) == 10000,
        pow10(5) == 100000,
        pow10(6) == 1000000,
        pow10(7) == 10000000,
        pow10(8) == 100000000,
        pow10(9) == 1000000000,
{
    assert(pow10(0) == 1);
    assert(pow10(1) == 10);
    assert(pow10(2) == 100);
    assert(pow10(3) == 1000);
    assert(pow10(4) == 10000);
    assert(pow10(5) == 100000);
    assert(pow10(6) == 1000000);
    assert(pow10(7) == 10000000);
    assert(pow10(8) == 100000000);
    assert(pow10(9) == 1000000000);
}

fn pow10_u64(k: usize) -> (r: u64)
    requires
        k <= 9,
    ensures
        r as int == pow10(k as int),
        1 <= r <= 1000000000,
{
    proof {
        lemma_pow10_values();
    }
    match k {
        0 => 1,
        1 => 10,
        2 => 100,
        3 => 1000,
        4 => 10000,
        5 => 100000,
        6 => 1000000,
        7 => 10000000,
        8 => 100000000,
        _ => 1000000000,
    }
}

/// The scaled value of the number in `num`, saturated; zero when the
/// number is malformed.
fn scaled_value(num: &str, unit: u64) -> (r: u64)
    requires
        1 <= unit <= 0x40000000,
    ensures
        r as int == sat64(scaled_or_zero(num@, unit as int)),
{
    let len = num.unicode_len();
    match find_char_str(num, '.') {
        None => {
            let (value, overflow, ok) = read_digits(num, 0, len);
            proof {
                assert(num@.subrange(0, len as int) =~= num@);
            }
            if !ok || len == 0 {
                return 0;
            }
            if overflow {
                proof {
                    vstd::arithmetic::mul::lemma_mul_inequality(1, unit as int, digits_val(num@));
                }
                return u64::MAX;
            }
            match value.checked_mul(unit) {
                Some(v) => v,
                None => u64::MAX,
            }
        },
        Some(d) => {
            let ghost ip = num@.subrange(0, d as int);
            let ghost fp = num@.subrange(d + 1, num@.len() as int);
            let frac_len = len - d - 1;
            let rest = num.substring_char(d + 1, len);
            if find_char_str(rest, '.').is_some() {
                return 0;
            }
            let (ival, ioverflow, iok) = read_digits(num, 0, d);
            let (fval, foverflow, fok) = read_digits(num, d + 1, len);
            if !iok || !fok || (d == 0 && frac_len == 0) || frac_len > 9 {
                return 0;
            }
            proof {
                assert(valid_decimal(num@));
                assert(fp.len() <= 9);
                if !foverflow {
                    assert(digits_val(fp) < pow10(9)) by {
                        lemma_digits_bound(fp);
                        lemma_pow10_mono(fp.len() as int, 9);
                    }
                }
            }
            if foverflow {
                proof {
                    assert(digits_val(fp) > u64::MAX);
                    lemma_digits_bound(fp);
                    lemma_pow10_mono(fp.len() as int, 9);
                    lemma_pow10_values();
                    assert(false);
                }
                return 0;
            }
            let p = pow10_u64(frac_len);
            proof {
                lemma_digits_bound(fp);
                assert(fval < p);
                lemma_mul_bounds(fval as int, unit as int);
            }
            let frac_scaled = (fval * unit) / p;
            if ioverflow {
                proof {
                    vstd::arithmetic::mul::lemma_mul_inequality(1, unit as int, digits_val(ip));
                    lemma_frac_nonneg(fp, unit as int);
                }
                return u64::MAX;
            }
            match ival.checked_mul(unit) {
                Some(whole) => match whole.checked_add(frac_scaled) {
                    Some(v) => {
                        proof {
                            assert(frac_scaled as int == (digits_val(fp) * unit) / pow10(
                                fp.len() as int,
                            ));
                        }
                        v
                    },
                    None => {
                        proof {
                            lemma_frac_nonneg(fp, unit as int);
                        }
                        u64::MAX
                    },
                },
                None => {
                    proof {
                        lemma_frac_nonneg(fp, unit as int);
                    }
                    u64::MAX
                },
            }
        },
    }
}

proof fn lemma_frac_nonneg(fp: Seq<char>, unit: int)
    requires
        all_digits(fp),
        unit >= 1,
    ensures
        (digits_val(fp) * unit) / pow10(fp.len() as int) >= 0,
{
    lemma_digits_bound(fp);
    lemma_pow10_pos(fp.len() as int);
    vstd::arithmetic::mul::lemma_mul_nonnegative(digits_val(fp), unit);
    vstd::arithmetic::div_mod::lemma_div_pos_is_pos(digits_val(fp) * unit, pow10(fp.len() as int));
}

proof fn lemma_digits_bound(s: Seq<char>)
    requires
        all_digits(s),
    ensures
        0 <= digits_val(s) < pow10(s.len() as int),
    decreases s.len(),
{
    if s.len() > 0 {
        assert(all_digits(s.drop_last())) by {
            assert(forall|i: int| 0 <= i < s.len() - 1 ==> s.drop_last()[i] == s[i]);
        }
        lemma_digits_bound(s.drop_last());
        assert(0 <= digit_val(s.last()) <= 9);
    }
}

proof fn lemma_pow10_mono(a: int, b: int)
    requires
        a <= b,
    ensures
        pow10(a) <= pow10(b),
        pow10(a) >= 1,
    decreases b - a,
{
    if a < b {
        lemma_pow10_mono(a, b - 1);
    } else if a == b {
        lemma_pow10_pos(a);
    }
}

proof fn lemma_pow10_pos(a: int)
    ensures
        pow10(a) >= 1,
    decreases a,
{
    if a > 0 {
        lemma_pow10_pos(a - 1);
    }
}

proof fn lemma_mul_bounds(a: int, b: int)
    requires
        0 <= a < 0x3B9ACA00,
        0 <= b <= 0x40000000,
    ensures
        a * b < 0x3B9ACA00 * 0x40000000,
        a * b >= 0,
{
    vstd::arithmetic::mul::lemma_mul_inequality(a, 0x3B9ACA00 - 1, b);
    vstd::arithmetic::mul::lemma_mul_inequality(b, 0x40000000, 0x3B9ACA00 - 1);
    vstd::arithmetic::mul::lemma_mul_nonnegative(a, b);
}

/// Reads a human-readable size such as `1.5GB` into bytes, rounding
/// down and saturating at the largest representable size.
pub fn parse_human_size(s: &str) -> (r: u64)
    ensures
        r as int == sat64(spec_parse_human_size(s@)),
{
    let t = trim_str(s);
    let tlen = t.as_str().unicode_len();
    if tlen == 0 {
        return 0;
    }
    if ends_with_sub(t.as_str(), "GB") {
        proof {
            reveal_strlit("GB");
        }
        let num = t.as_str().substring_char(0, tlen - 2);
        proof {
            assert(num@ =~= t@.take(t@.len() - 2));
        }
        scaled_value(num, 0x40000000)
    } else if ends_with_sub(t.as_str(), "MB") {
        proof {
            reveal_strlit("GB");
            reveal_strlit("MB");
        }
        let num = t.as_str().substring_char(0, tlen - 2);
        proof {
            assert(num@ =~= t@.take(t@.len() - 2));
        }
        scaled_value(num, 0x100000)
    } else if ends_with_sub(t.as_str(), "KB") {
        proof {
            reveal_strlit("GB");
            reveal_strlit("MB");
            reveal_strlit("KB");
        }
        let num = t.as_str().substring_char(0, tlen - 2);
        proof {
            assert(num@ =~= t@.take(t@.len() - 2));
        }
        scaled_value(num, 0x400)
    } else if ends_with_sub(t.as_str(), "B") {
        proof {
            reveal_strlit("GB");
            reveal_strlit("MB");
            reveal_strlit("KB");
            reveal_strlit("B");
        }
        let num = t.as_str().substring_char(0, tlen - 1);
        proof {
            assert(num@ =~= t@.take(t@.len() - 1));
        }
        scaled_value(num, 1)
    } else {
        scaled_value(t.as_str(), 1)
    }
}

/// One report line holds exactly two `|`-separated fields.
pub open spec fn line_fields_ok(line: Seq<char>) -> bool {
    find_char(line, '|') >= 0 && find_char(line_reclaimable(line), '|') < 0
}

/// The reclaimable column: everything after the separator.
pub open spec fn line_reclaimable(line: Seq<char>) -> Seq<char> {
    line.subrange(find_char(line, '|') + 1, line.len() as int)
}

/// The size token: the reclaimable column up to its first space.
pub open spec fn line_token(line: Seq<char>) -> Seq<char> {
    let r = line_reclaimable(line);
    let sp = find_char(r, ' ');
    if sp < 0 {
        r
    } else {
        r.subrange(0, sp)
    }
}

/// The reclaimable bytes one line reports; a malformed line counts
/// as zero.
pub open spec fn line_size(line: Seq<char>) -> int {
    if line_fields_ok(line) {
        sat64(spec_parse_human_size(line_token(line)))
    } else {
        0
    }
}

/// The human-readable summary of one line: `type: reclaimable`.
pub open spec fn line_detail(line: Seq<char>) -> Seq<char> {
    line.subrange(0, find_char(line, '|')) + ": "@ + line_reclaimable(line)
}

/// The summary of a line that reports something, else nothing.
pub open spec fn line_detail_or_empty(line: Seq<char>) -> Seq<char> {
    if line_size(line) > 0 {
        line_detail(line)
    } else {
        Seq::<char>::empty()
    }
}

/// Two summaries joined with a comma where both are present.
pub open spec fn join_details(a: Seq<char>, b: Seq<char>) -> Seq<char> {
    if a.len() == 0 {
        b
    } else if b.len() == 0 {
        a
    } else {
        a + ", "@ + b
    }
}

proof fn lemma_join_assoc(a: Seq<char>, b: Seq<char>, c: Seq<char>)
    ensures
        join_details(a, join_details(b, c)) == join_details(join_details(a, b), c),
{
    if a.len() > 0 && b.len() > 0 && c.len() > 0 {
        assert(a + ", "@ + (b + ", "@ + c) =~= (a + ", "@ + b) + ", "@ + c);
    }
}

/// The reclaimable total over all lines of the report.
pub open spec fn docker_total(s: Seq<char>) -> int
    decreases s.len(),
{
    let nl = find_char(s, '\n');
    if nl < 0 || nl >= s.len() {
        line_size(s)
    } else {
        line_size(s.subrange(0, nl)) + docker_total(s.subrange(nl + 1, s.len() as int))
    }
}

/// The joined summaries of all lines that report something.
pub open spec fn docker_details(s: Seq<char>) -> Seq<char>
    decreases s.len(),
{
    let nl = find_char(s, '\n');
    if nl < 0 || nl >= s.len() {
        line_detail_or_empty(s)
    } else {
        join_details(
            line_detail_or_empty(s.subrange(0, nl)),
            docker_details(s.subrange(nl + 1, s.len() as int)),
        )
    }
}

/// The recommendation a usage report yields: the summed reclaimable
/// size with a description naming each contributing resource kind and
/// the out-of-band remediation command, or nothing when the report
/// shows nothing reclaimable.
pub open spec fn spec_docker_report(s: Seq<char>) -> Option<RecModel> {
    if docker_total(s) > 0 {
        Some(
            RecModel {
                category: RecommendationCategory::Docker,
                description: "Docker Cleanup: "@ + docker_details(s),
                size: sat64(docker_total(s)) as u64,
                path: None,
                action_command: Some("docker system prune -f"@),
            },
        )
    } else {
        None
    }
}

/// Reads one `type|reclaimable` line: the bytes it reports and, when
/// it reports any, its summary.
fn parse_report_line(line: &str) -> (r: (u64, Option<String>))
    ensures
        r.0 as int == line_size(line@),
        match r.1 {
            Some(d) => line_size(line@) > 0 && d@ == line_detail(line@),
            None => line_size(line@) == 0,
        },
{
    let len = line.unicode_len();
    match find_char_str(line, '|') {
        None => (0, None),
        Some(d) => {
            let rest = line.substring_char(d + 1, len);
            proof {
                assert(rest@ =~= line_reclaimable(line@));
            }
            if find_char_str(rest, '|').is_some() {
                return (0, None);
            }
            let token = match find_char_str(rest, ' ') {
                Some(sp) => {
                    let tk = rest.substring_char(0, sp);
                    proof {
                        assert(tk@ =~= line_token(line@));
                    }
                    tk
                },
                None => {
                    proof {
                        assert(rest@ =~= line_token(line@));
                    }
                    rest
                },
            };
            let sz = parse_human_size(token);
            if sz > 0 {
                let ty = line.substring_char(0, d);
                let detail = String::from_str(ty).concat(": ").concat(rest);
                proof {
                    reveal_strlit(": ");
                    assert(detail@ =~= line_detail(line@));
                }
                (sz, Some(detail))
            } else {
                (sz, None)
            }
        },
    }
}

/// Parses the whole usage report into a recommendation, when its
/// lines report anything reclaimable; the total saturates at the
/// largest representable size.
pub fn parse_docker_report(out: &str) -> (r: Option<Recommendation>)
    ensures
        match r {
            Some(rec) => spec_docker_report(out@) == Some(rec_model(rec)),
            None => spec_docker_report(out@) is None,
        },
{
    let len = out.unicode_len();
    let mut pos: usize = 0;
    let mut total: u64 = 0;
    let ghost mut exact: int = 0int;
    let mut details = String::new();
    proof {
        assert(out@.skip(0) =~= out@);
        assert(join_details(details@, docker_details(out@)) == docker_details(out@));
    }
    while pos < len
        invariant
            len == out@.len(),
            pos <= len,
            exact >= 0,
            total as int == sat64(exact),
            docker_total(out@) == exact + docker_total(out@.skip(pos as int)),
            docker_details(out@) == join_details(details@, docker_details(out@.skip(pos as int))),
        decreases len - pos,
    {
        let ghost suffix = out@.skip(pos as int);
        let tail = out.substring_char(pos, len);
        proof {
            assert(tail@ =~= suffix);
        }
        let (line_end, next_pos) = match find_char_str(tail, '\n') {
            Some(nl) => (pos + nl, pos + nl + 1),
            None => (len, len),
        };
        let line = out.substring_char(pos, line_end);
        proof {
            assert(line@ =~= suffix.subrange(0, line_end - pos));
        }
        let (sz, d_opt) = parse_report_line(line);
        proof {
            let nl = find_char(suffix, '\n');
            if next_pos > line_end {
                assert(nl == line_end - pos);
                assert(suffix.subrange(nl + 1, suffix.len() as int) =~= out@.skip(
                    next_pos as int,
                ));
            } else {
                assert(nl == -1);
                assert(line@ =~= suffix);
                assert(out@.skip(len as int).len() == 0);
                assert(docker_total(out@.skip(len as int)) == 0);
                assert(docker_details(out@.skip(len as int)) =~= Seq::<char>::empty());
            }
            lemma_join_assoc(
                details@,
                line_detail_or_empty(line@),
                docker_details(out@.skip(next_pos as int)),
            );
        }
        total = match total.checked_add(sz) {
            Some(v) => v,
            None => u64::MAX,
        };
        proof {
            exact = exact + line_size(line@);
        }
        match d_opt {
            Some(dstr) => {
                if details.as_str().unicode_len() == 0 {
                    details = dstr;
                } else {
                    details = details.concat(", ").concat(dstr.as_str());
                    proof {
                        reveal_strlit(", ");
                    }
                }
            },
            None => {},
        }
        pos = next_pos;
    }
    proof {
        assert(out@.skip(len as int).len() == 0);
        assert(docker_total(out@.skip(len as int)) == 0);
        assert(docker_details(out@.skip(len as int)) =~= Seq::<char>::empty());
        assert(docker_total(out@) == exact);
        assert(docker_details(out@) == details@);
    }
    if total > 0 {
        let desc = String::from_str("Docker Cleanup: ").concat(details.as_str());
        let rec = Recommendation {
            category: RecommendationCategory::Docker,
            description: desc,
            size: total,
            path: None,
            action_command: Some(String::from_str("docker system prune -f")),
        };
        proof {
            assert(rec_model(rec).description =~= "Docker Cleanup: "@ + docker_details(out@));
        }
        Some(rec)
    } else {
        None
    }
}

} // verus!
