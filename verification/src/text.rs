use vstd::prelude::*;

verus! {

/// `pat` occurs in `s` starting at character position `i`.
pub open spec fn occurs_at(s: Seq<char>, pat: Seq<char>, i: int) -> bool {
    &&& 0 <= i
    &&& i + pat.len() <= s.len()
    &&& s.subrange(i, i + pat.len()) == pat
}

/// `pat` occurs somewhere in `s` (what `str::contains` answers).
pub open spec fn has_substring(s: Seq<char>, pat: Seq<char>) -> bool {
    exists|i: int| occurs_at(s, pat, i)
}

/// `s` begins with `pat` (what `str::starts_with` answers).
pub open spec fn has_prefix(s: Seq<char>, pat: Seq<char>) -> bool {
    occurs_at(s, pat, 0)
}

/// Copies the characters of `s` into a vector.
pub fn chars_of(s: &str) -> (r: Vec<char>)
    ensures
        r@ == s@,
{
    let mut r: Vec<char> = Vec::new();
    for c in it: s.chars()
        invariant
            r@ == it.seq().take(it.index() as int),
            it.seq() == s@,
    {
        r.push(c);
    }
    r
}

/// Whether `pat` occurs in `s` at position `i`, on character vectors.
pub(crate) fn occurs_at_exec(s: &Vec<char>, pat: &Vec<char>, i: usize) -> (r: bool)
    requires
        i + pat@.len() <= s@.len(),
    ensures
        r == occurs_at(s@, pat@, i as int),
{
    let n = s.len();
    let mut k: usize = 0;
    while k < pat.len()
        invariant
            n == s@.len(),
            i + pat@.len() <= s@.len(),
            k <= pat@.len(),
            forall|j: int| 0 <= j < k ==> s@[i + j] == pat@[j],
        decreases pat@.len() - k,
    {
        assert(i + k < s@.len());
        if s[i + k] != pat[k] {
            assert(s@.subrange(i as int, i + pat@.len())[k as int] != pat@[k as int]);
            return false;
        }
        k = k + 1;
    }
    assert(s@.subrange(i as int, i + pat@.len()) =~= pat@);
    true
}

/// Character-wise equality of two strings.
pub fn same_text(a: &str, b: &str) -> (r: bool)
    ensures
        r == (a@ == b@),
{
    let av = chars_of(a);
    let bv = chars_of(b);
    if av.len() != bv.len() {
        return false;
    }
    let r = occurs_at_exec(&av, &bv, 0);
    proof {
        assert(av@.subrange(0, av@.len() as int) =~= av@);
    }
    r
}

/// Whether `pat` occurs in `s`.
pub fn contains_text(s: &str, pat: &str) -> (r: bool)
    ensures
        r == has_substring(s@, pat@),
{
    let sv = chars_of(s);
    let pv = chars_of(pat);
    if pv.len() > sv.len() {
        return false;
    }
    let last = sv.len() - pv.len();
    let mut i: usize = 0;
    while i < last
        invariant
            sv@ == s@,
            pv@ == pat@,
            last + pv@.len() == sv@.len(),
            i <= last,
            forall|j: int| 0 <= j < i ==> !occurs_at(s@, pat@, j),
        decreases last - i,
    {
        if occurs_at_exec(&sv, &pv, i) {
            return true;
        }
        i = i + 1;
    }
    if occurs_at_exec(&sv, &pv, last) {
        return true;
    }
    assert forall|j: int| !occurs_at(s@, pat@, j) by {
        if 0 <= j <= last {
        }
    }
    false
}

/// Whether `s` begins with `pat`.
pub fn starts_with_text(s: &str, pat: &str) -> (r: bool)
    ensures
        r == has_prefix(s@, pat@),
{
    let sv = chars_of(s);
    let pv = chars_of(pat);
    if pv.len() > sv.len() {
        return false;
    }
    occurs_at_exec(&sv, &pv, 0)
}

/// The pieces of `s` between occurrences of `sep`, as `str::split` yields them:
/// an empty text gives one empty piece, and a trailing separator an empty last piece.
pub open spec fn split_fields(s: Seq<char>, sep: char) -> Seq<Seq<char>>
    decreases s.len(),
{
    if s.len() == 0 {
        seq![Seq::<char>::empty()]
    } else {
        let f = split_fields(s.drop_last(), sep);
        if s.last() == sep {
            f.push(Seq::<char>::empty())
        } else {
            f.update(f.len() - 1, f.last().push(s.last()))
        }
    }
}

pub proof fn lemma_split_fields_nonempty(s: Seq<char>, sep: char)
    ensures
        split_fields(s, sep).len() >= 1,
    decreases s.len(),
{
    if s.len() > 0 {
        lemma_split_fields_nonempty(s.drop_last(), sep);
    }
}

/// The character sequences held by a vector of character vectors.
pub open spec fn pieces_view(v: Seq<Vec<char>>) -> Seq<Seq<char>> {
    v.map_values(|f: Vec<char>| f@)
}

/// Splits `s` at every occurrence of `sep`.
pub fn split_text(s: &str, sep: char) -> (r: Vec<Vec<char>>)
    ensures
        pieces_view(r@) == split_fields(s@, sep),
{
    let sv = chars_of(s);
    let mut fields: Vec<Vec<char>> = Vec::new();
    let mut cur: Vec<char> = Vec::new();
    let mut i: usize = 0;
    while i < sv.len()
        invariant
            sv@ == s@,
            i <= sv@.len(),
            pieces_view(fields@).push(cur@) == split_fields(sv@.take(i as int), sep),
        decreases sv@.len() - i,
    {
        let c = sv[i];
        proof {
            assert(sv@.take(i + 1).drop_last() =~= sv@.take(i as int));
            lemma_split_fields_nonempty(sv@.take(i as int), sep);
        }
        let ghost before = pieces_view(fields@);
        if c == sep {
            let done = cur;
            fields.push(done);
            cur = Vec::new();
            assert(pieces_view(fields@) =~= before.push(done@));
        } else {
            let ghost old_cur = cur@;
            cur.push(c);
            assert(pieces_view(fields@) =~= before);
            assert(pieces_view(fields@).push(cur@) =~= before.push(old_cur).update(
                before.len() as int,
                old_cur.push(c),
            ));
        }
        i = i + 1;
    }
    assert(sv@.take(sv@.len() as int) =~= sv@);
    let ghost before = pieces_view(fields@);
    fields.push(cur);
    assert(pieces_view(fields@) =~= before.push(cur@));
    fields
}

/// An ASCII decimal digit.
pub open spec fn is_digit(c: char) -> bool {
    '0' <= c && c <= '9'
}

pub open spec fn all_digits(s: Seq<char>) -> bool {
    forall|i: int| 0 <= i < s.len() ==> is_digit(#[trigger] s[i])
}

/// The number that the decimal digits `s` write.
pub open spec fn digits_value(s: Seq<char>) -> int
    decreases s.len(),
{
    if s.len() == 0 {
        0
    } else {
        digits_value(s.drop_last()) * 10 + (s.last() as int - '0' as int)
    }
}

/// The integer that `s` writes in the form that `i64::from_str` accepts:
/// an optional `+` or `-` followed by one or more decimal digits.
pub open spec fn integer_value(s: Seq<char>) -> Option<int> {
    if s.len() > 0 && (s[0] == '-' || s[0] == '+') {
        let body = s.drop_first();
        if body.len() > 0 && all_digits(body) {
            Some(if s[0] == '-' { -digits_value(body) } else { digits_value(body) })
        } else {
            None
        }
    } else if s.len() > 0 && all_digits(s) {
        Some(digits_value(s))
    } else {
        None
    }
}

/// What `i64::from_str` gives for `s`: the written integer when it fits in an `i64`.
pub open spec fn parse_i64_spec(s: Seq<char>) -> Option<i64> {
    match integer_value(s) {
        Some(v) => if i64::MIN <= v <= i64::MAX { Some(v as i64) } else { None },
        None => None,
    }
}

proof fn lemma_digits_value_grows(s: Seq<char>, k: int)
    requires
        all_digits(s),
        0 <= k <= s.len(),
    ensures
        0 <= digits_value(s.take(k)) <= digits_value(s),
    decreases s.len(),
{
    if k < s.len() {
        let p = s.drop_last();
        assert(all_digits(p)) by {
            assert forall|i: int| 0 <= i < p.len() implies is_digit(#[trigger] p[i]) by {
                assert(p[i] == s[i]);
            }
        }
        lemma_digits_value_grows(p, k);
        assert(p.take(k) =~= s.take(k));
        lemma_digits_value_grows(p, p.len() as int);
        assert(p.take(p.len() as int) =~= p);
        assert(is_digit(s[s.len() - 1]));
    } else {
        assert(s.take(k) =~= s);
        if s.len() > 0 {
            let p = s.drop_last();
            assert(all_digits(p)) by {
                assert forall|i: int| 0 <= i < p.len() implies is_digit(#[trigger] p[i]) by {
                    assert(p[i] == s[i]);
                }
            }
            lemma_digits_value_grows(p, p.len() as int);
            assert(p.take(p.len() as int) =~= p);
            assert(is_digit(s[s.len() - 1]));
        }
    }
}

/// Parses a whole character vector as an `i64`, as `i64::from_str` does.
pub fn parse_i64_chars(s: &Vec<char>) -> (r: Option<i64>)
    ensures
        r == parse_i64_spec(s@),
{
    let n = s.len();
    if n == 0 {
        return None;
    }
    let first = s[0];
    let negative = first == '-';
    let start: usize = if first == '-' || first == '+' { 1 } else { 0 };
    if start == n {
        return None;
    }
    let ghost body = s@.subrange(start as int, n as int);
    proof {
        if start == 1 {
            assert(body =~= s@.drop_first());
        } else {
            assert(body =~= s@);
        }
    }
    let bound: u128 = 9223372036854775808;
    let mut acc: u128 = 0;
    let mut i: usize = start;
    while i < n
        invariant
            n == s@.len(),
            start <= i <= n,
            start < n,
            start <= 1,
            body == s@.subrange(start as int, n as int),
            start == 1 ==> body == s@.drop_first(),
            start == 0 ==> body == s@,
            (start == 1) == (s@[0] == '-' || s@[0] == '+'),
            negative == (s@[0] == '-'),
            acc <= bound,
            bound == 9223372036854775808,
            all_digits(body.take(i - start)),
            acc == digits_value(body.take(i - start)),
        decreases n - i,
    {
        let c = s[i];
        let k: usize = i - start;
        assert(body[k as int] == c);
        if !('0' <= c && c <= '9') {
            assert(!all_digits(body));
            return None;
        }
        let d: u128 = (c as u32 - '0' as u32) as u128;
        proof {
            assert(body.take(k + 1).drop_last() =~= body.take(k as int));
            assert(all_digits(body.take(k + 1))) by {
                assert forall|j: int| 0 <= j < k + 1 implies is_digit(#[trigger] body.take(k + 1)[j]) by {
                    if j < k {
                        assert(body.take(k + 1)[j] == body.take(k as int)[j]);
                    }
                }
            }
        }
        let next = acc * 10 + d;
        assert(digits_value(body.take(k + 1)) == next);
        if next > bound {
            proof {
                if all_digits(body) {
                    lemma_digits_value_grows(body, k + 1);
                    assert(digits_value(body) > 9223372036854775807);
                    if start == 1 {
                        assert(body.len() > 0);
                        if s@[0] == '-' {
                            assert(integer_value(s@) == Some(-digits_value(body)));
                        } else {
                            assert(integer_value(s@) == Some(digits_value(body)));
                        }
                    } else {
                        assert(integer_value(s@) == Some(digits_value(body)));
                    }
                } else {
                    assert(integer_value(s@) is None);
                }
            }
            return None;
        }
        acc = next;
        i = i + 1;
    }
    assert(body.take(n - start) =~= body);
    if negative {
        assert(s@[0] == '-');
        let v: i128 = 0 - (acc as i128);
        Some(v as i64)
    } else {
        if acc > 9223372036854775807 {
            return None;
        }
        Some(acc as i64)
    }
}

/// Every piece parses as an `i64`.
pub open spec fn all_fields_parse(fields: Seq<Seq<char>>) -> bool {
    forall|i: int| 0 <= i < fields.len() ==> (#[trigger] parse_i64_spec(fields[i])) is Some
}

/// Splits `s` at `sep` and parses every piece as an `i64`; `None` when some piece does not parse.
pub fn parse_i64_list(s: &str, sep: char) -> (r: Option<Vec<i64>>)
    ensures
        match r {
            Some(v) => {
                &&& all_fields_parse(split_fields(s@, sep))
                &&& v@.len() == split_fields(s@, sep).len()
                &&& forall|i: int|
                    0 <= i < v@.len() ==> Some(#[trigger] v@[i]) == parse_i64_spec(
                        split_fields(s@, sep)[i],
                    )
            },
            None => !all_fields_parse(split_fields(s@, sep)),
        },
{
    let fields = split_text(s, sep);
    let ghost f = split_fields(s@, sep);
    let mut out: Vec<i64> = Vec::new();
    let mut i: usize = 0;
    while i < fields.len()
        invariant
            pieces_view(fields@) == f,
            f == split_fields(s@, sep),
            i <= fields@.len(),
            out@.len() == i,
            forall|j: int| 0 <= j < i ==> Some(#[trigger] out@[j]) == parse_i64_spec(f[j]),
        decreases fields@.len() - i,
    {
        assert(fields@[i as int]@ == f[i as int]);
        assert(fields@.len() == f.len());
        let parsed = parse_i64_chars(&fields[i]);
        assert(parsed == parse_i64_spec(f[i as int]));
        match parsed {
            Some(v) => {
                out.push(v);
            },
            None => {
                assert(parse_i64_spec(f[i as int]) is None);
                assert(!all_fields_parse(f));
                return None;
            },
        }
        i = i + 1;
    }
    assert(fields@.len() == f.len());
    assert forall|j: int| 0 <= j < f.len() implies (#[trigger] parse_i64_spec(f[j])) is Some by {
        assert(Some(out@[j]) == parse_i64_spec(f[j]));
    }
    Some(out)
}

/// Appends the characters of `s` to `out`.
pub fn push_text(out: &mut Vec<char>, s: &str)
    ensures
        final(out)@ == old(out)@ + s@,
{
    let sv = chars_of(s);
    let mut i: usize = 0;
    while i < sv.len()
        invariant
            i <= sv@.len(),
            sv@ == s@,
            out@ == old(out)@ + sv@.take(i as int),
        decreases sv@.len() - i,
    {
        out.push(sv[i]);
        i = i + 1;
        assert(out@ =~= old(out)@ + sv@.take(i as int));
    }
    assert(sv@.take(sv@.len() as int) =~= sv@);
}

/// The character of the decimal digit `d`.
pub open spec fn digit_char(d: nat) -> char {
    if d == 0 { '0' } else if d == 1 { '1' } else if d == 2 { '2' } else if d == 3 { '3' }
    else if d == 4 { '4' } else if d == 5 { '5' } else if d == 6 { '6' } else if d == 7 { '7' }
    else if d == 8 { '8' } else { '9' }
}

/// The decimal digits of `n`, without leading zeros.
pub open spec fn nat_text(n: nat) -> Seq<char>
    decreases n,
{
    if n < 10 {
        seq![digit_char(n)]
    } else {
        nat_text(n / 10).push(digit_char(n % 10))
    }
}

/// How `Display` writes the integer `v`: a minus sign when negative, then its decimal digits.
pub open spec fn int_text(v: int) -> Seq<char> {
    if v < 0 { seq!['-'] + nat_text((-v) as nat) } else { nat_text(v as nat) }
}

proof fn lemma_digit_char_value(d: nat)
    requires
        d < 10,
    ensures
        digit_char(d) as int - '0' as int == d,
        is_digit(digit_char(d)),
{
    if d == 0 {
    } else if d == 1 {
    } else if d == 2 {
    } else if d == 3 {
    } else if d == 4 {
    } else if d == 5 {
    } else if d == 6 {
    } else if d == 7 {
    } else if d == 8 {
    } else {
    }
}

proof fn lemma_nat_text_digits(n: nat)
    ensures
        nat_text(n).len() > 0,
        all_digits(nat_text(n)),
        digits_value(nat_text(n)) == n,
    decreases n,
{
    let t = nat_text(n);
    if n < 10 {
        lemma_digit_char_value(n);
        assert(t.drop_last() =~= Seq::<char>::empty());
        assert(digits_value(t.drop_last()) == 0);
        assert(t.last() == digit_char(n));
    } else {
        lemma_nat_text_digits(n / 10);
        let d = n % 10;
        lemma_digit_char_value(d);
        assert(t.last() == digit_char(d));
        assert(t.drop_last() =~= nat_text(n / 10));
        assert(digits_value(t) == n / 10 * 10 + d);
        assert forall|i: int| 0 <= i < t.len() implies is_digit(#[trigger] t[i]) by {
            if i < t.len() - 1 {
                assert(t[i] == nat_text(n / 10)[i]);
            }
        }
    }
}

/// Reading back what `Display` writes for an `i64` gives the same number: `i64::from_str`
/// of the decimal text of `v` is `v`.
pub proof fn lemma_int_text_parses_back(v: i64)
    ensures
        parse_i64_spec(int_text(v as int)) == Some(v),
{
    if v < 0 {
        let m = (-(v as int)) as nat;
        lemma_nat_text_digits(m);
        let t = int_text(v as int);
        assert(t.drop_first() =~= nat_text(m));
        assert(t[0] == '-');
    } else {
        lemma_nat_text_digits(v as nat);
        let t = nat_text(v as nat);
        assert(is_digit(t[0]));
    }
}

/// Different integers are written differently.
pub proof fn lemma_int_text_injective(a: i64, b: i64)
    requires
        a != b,
    ensures
        int_text(a as int) != int_text(b as int),
{
    lemma_int_text_parses_back(a);
    lemma_int_text_parses_back(b);
}

fn digit_of(d: u64) -> (c: char)
    requires
        d < 10,
    ensures
        c == digit_char(d as nat),
{
    if d == 0 { '0' } else if d == 1 { '1' } else if d == 2 { '2' } else if d == 3 { '3' }
    else if d == 4 { '4' } else if d == 5 { '5' } else if d == 6 { '6' } else if d == 7 { '7' }
    else if d == 8 { '8' } else { '9' }
}

/// Appends the decimal form of `v` to `out`.
pub fn push_int(out: &mut Vec<char>, v: i64)
    ensures
        final(out)@ == old(out)@ + int_text(v as int),
{
    let negative = v < 0;
    let magnitude: u64 = if negative { (0i128 - (v as i128)) as u64 } else { v as u64 };
    if negative {
        out.push('-');
    }
    push_digits(out, magnitude);
    assert(out@ =~= old(out)@ + int_text(v as int));
}

/// Appends the decimal form of `v` to `out`.
pub fn push_uint(out: &mut Vec<char>, v: usize)
    ensures
        final(out)@ == old(out)@ + int_text(v as int),
{
    push_digits(out, v as u64);
}

/// Appends the decimal digits of `magnitude` to `out`.
fn push_digits(out: &mut Vec<char>, magnitude: u64)
    ensures
        final(out)@ == old(out)@ + nat_text(magnitude as nat),
{
    let ghost whole = magnitude as nat;
    let mut m: u64 = magnitude;
    let mut digits: Vec<char> = Vec::new();
    while m >= 10
        invariant
            nat_text(whole) == nat_text(m as nat) + digits@,
        decreases m,
    {
        let d = m % 10;
        let c = digit_of(d);
        assert(nat_text(m as nat) == nat_text((m / 10) as nat).push(c));
        let ghost prev = digits@;
        digits.insert(0, c);
        assert(digits@ =~= seq![c] + prev);
        assert(nat_text((m / 10) as nat).push(c) + prev =~= nat_text((m / 10) as nat) + digits@);
        m = m / 10;
    }
    let c = digit_of(m);
    let ghost prev = digits@;
    digits.insert(0, c);
    assert(digits@ =~= seq![c] + prev);
    assert(nat_text(m as nat) == seq![c]);
    assert(nat_text(whole) =~= digits@);
    let ghost start = out@;
    let mut i: usize = 0;
    while i < digits.len()
        invariant
            i <= digits@.len(),
            out@ == start + digits@.take(i as int),
        decreases digits@.len() - i,
    {
        out.push(digits[i]);
        i = i + 1;
        assert(out@ =~= start + digits@.take(i as int));
    }
    assert(digits@.take(digits@.len() as int) =~= digits@);
}

/// A `String` holding the characters `v`.
/// Collects `v` into a `String` with `FromIterator<char>`; its contract claims that the string
/// holds exactly those characters, in order.
#[verifier::external_body]
pub(crate) fn text_to_string(v: &Vec<char>) -> (r: String)
    ensures
        r@ == v@,
{
    v.iter().collect()
}

/// The pieces written one after another with `sep` between neighbours, as `join` writes them.
pub open spec fn joined(parts: Seq<Seq<char>>, sep: Seq<char>) -> Seq<char>
    decreases parts.len(),
{
    if parts.len() == 0 {
        Seq::empty()
    } else if parts.len() == 1 {
        parts[0]
    } else {
        joined(parts.drop_last(), sep) + sep + parts.last()
    }
}

/// Appends the integers `vals`, separated by `sep`, to `out`.
pub fn push_joined_ints(out: &mut Vec<char>, vals: &[i64], sep: &str)
    ensures
        final(out)@ == old(out)@ + joined(vals@.map_values(|v: i64| int_text(v as int)), sep@),
{
    let ghost parts = vals@.map_values(|v: i64| int_text(v as int));
    let mut i: usize = 0;
    while i < vals.len()
        invariant
            i <= vals@.len(),
            parts == vals@.map_values(|v: i64| int_text(v as int)),
            out@ == old(out)@ + joined(parts.take(i as int), sep@),
        decreases vals@.len() - i,
    {
        if i > 0 {
            push_text(out, sep);
        }
        push_int(out, vals[i]);
        proof {
            assert(parts.take(i + 1).drop_last() =~= parts.take(i as int));
            if i == 0 {
                assert(joined(parts.take(0), sep@) =~= Seq::<char>::empty());
            }
        }
        i = i + 1;
        assert(out@ =~= old(out)@ + joined(parts.take(i as int), sep@));
    }
    assert(parts.take(vals@.len() as int) =~= parts);
}

/// Appends the texts `vals`, separated by `sep`, to `out`.
pub fn push_joined_texts(out: &mut Vec<char>, vals: &Vec<String>, sep: &str)
    ensures
        final(out)@ == old(out)@ + joined(vals@.map_values(|v: String| v@), sep@),
{
    let ghost parts = vals@.map_values(|v: String| v@);
    let mut i: usize = 0;
    while i < vals.len()
        invariant
            i <= vals@.len(),
            parts == vals@.map_values(|v: String| v@),
            out@ == old(out)@ + joined(parts.take(i as int), sep@),
        decreases vals@.len() - i,
    {
        if i > 0 {
            push_text(out, sep);
        }
        push_text(out, vals[i].as_str());
        proof {
            assert(parts.take(i + 1).drop_last() =~= parts.take(i as int));
            if i == 0 {
                assert(joined(parts.take(0), sep@) =~= Seq::<char>::empty());
            }
        }
        i = i + 1;
        assert(out@ =~= old(out)@ + joined(parts.take(i as int), sep@));
    }
    assert(parts.take(vals@.len() as int) =~= parts);
}

} // verus!
