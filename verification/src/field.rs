//! Schedule expressions: three tokens separated by white space, each `*` or a
//! comma-separated list of integers, read into sorted field sets.

use vstd::prelude::*;
use vstd::slice::slice_subrange;
use vstd::std_specs::iter::IteratorSpec;

verus! {

/// Whether `c` is white space in the sense of Unicode's `White_Space`
/// property, the separator of tokens.
pub open spec fn is_space(c: char) -> bool {
    let u = c as u32;
    ||| 0x09 <= u <= 0x0D
    ||| u == 0x20
    ||| u == 0x85
    ||| u == 0xA0
    ||| u == 0x1680
    ||| 0x2000 <= u <= 0x200A
    ||| u == 0x2028
    ||| u == 0x2029
    ||| u == 0x202F
    ||| u == 0x205F
    ||| u == 0x3000
}

/// Whether `c` is one of the decimal digits `0` to `9`.
pub open spec fn is_digit(c: char) -> bool {
    0x30 <= c as u32 <= 0x39
}

/// The number that the digit `c` writes.
pub open spec fn digit_value(c: char) -> int {
    c as u32 - 0x30
}

/// Whether `c` is white space.
pub fn space(c: char) -> (r: bool)
    ensures
        r == is_space(c),
{
    let u: u32 = c as u32;
    (0x09 <= u && u <= 0x0D) || u == 0x20 || u == 0x85 || u == 0xA0 || u == 0x1680 || (0x2000 <= u
        && u <= 0x200A) || u == 0x2028 || u == 0x2029 || u == 0x202F || u == 0x205F || u == 0x3000
}

/// The characters of `s`, in order.
pub fn chars_of(s: &str) -> (r: Vec<char>)
    ensures
        r@ == s@,
{
    broadcast use vstd::string::axiom_spec_iter, vstd::string::next_postcondition;

    let mut r: Vec<char> = Vec::new();
    let mut it = s.chars();
    loop
        invariant
            it.obeys_prophetic_iter_laws(),
            it.decrease() is Some,
            r@ + it.remaining() == s@,
        decreases it.decrease()->0,
    {
        match it.next() {
            Some(c) => {
                r.push(c);
                assert(r@ + it.remaining() =~= s@);
            },
            None => {
                assert(r@ =~= s@);
                return r;
            },
        }
    }
}

/// The first index at or after `i` that holds no white space, or the
/// length of `s` where only white space follows.
pub open spec fn skip_spaces(s: Seq<char>, i: int) -> int
    decreases s.len() - i,
{
    if 0 <= i < s.len() && is_space(s[i]) {
        skip_spaces(s, i + 1)
    } else {
        i
    }
}

/// The first index at or after `i` that holds white space, or the length of
/// `s` where none follows: the end of the token that starts at `i`.
pub open spec fn skip_word(s: Seq<char>, i: int) -> int
    decreases s.len() - i,
{
    if 0 <= i < s.len() && !is_space(s[i]) {
        skip_word(s, i + 1)
    } else {
        i
    }
}

/// The first index at or after `i` that holds a comma, or the length of `s`
/// where none follows: the end of the list entry that starts at `i`.
pub open spec fn entry_end(s: Seq<char>, i: int) -> int
    decreases s.len() - i,
{
    if 0 <= i < s.len() && s[i] != ',' {
        entry_end(s, i + 1)
    } else {
        i
    }
}

/// A scan starts where it was asked to and stops inside the sequence.
pub proof fn lemma_scan_bounds(s: Seq<char>, i: int)
    requires
        0 <= i <= s.len(),
    ensures
        i <= skip_spaces(s, i) <= s.len(),
        i <= skip_word(s, i) <= s.len(),
        i <= entry_end(s, i) <= s.len(),
    decreases s.len() - i,
{
    if i < s.len() {
        lemma_scan_bounds(s, i + 1);
    }
}

/// What the three scans pass over and where they stop: white space up to a
/// character that is none, a token up to white space, an entry up to a comma.
pub proof fn lemma_scan_stops(s: Seq<char>, i: int)
    requires
        0 <= i <= s.len(),
    ensures
        forall|k: int| i <= k < skip_spaces(s, i) ==> is_space(#[trigger] s[k]),
        skip_spaces(s, i) < s.len() ==> !is_space(s[skip_spaces(s, i)]),
        forall|k: int| i <= k < skip_word(s, i) ==> !is_space(#[trigger] s[k]),
        skip_word(s, i) < s.len() ==> is_space(s[skip_word(s, i)]),
        forall|k: int| i <= k < entry_end(s, i) ==> #[trigger] s[k] != ',',
        entry_end(s, i) < s.len() ==> s[entry_end(s, i)] == ',',
    decreases s.len() - i,
{
    lemma_scan_bounds(s, i);
    if i < s.len() {
        lemma_scan_stops(s, i + 1);
    }
}

/// The index of the first character at or after `from` that is no white
/// space.
pub fn scan_spaces(chars: &[char], from: usize) -> (r: usize)
    requires
        from <= chars@.len(),
    ensures
        r == skip_spaces(chars@, from as int),
        from <= r <= chars@.len(),
{
    let mut i: usize = from;
    while i < chars.len() && space(chars[i])
        invariant
            from <= i <= chars@.len(),
            skip_spaces(chars@, from as int) == skip_spaces(chars@, i as int),
        decreases chars@.len() - i,
    {
        i += 1;
    }
    i
}

/// The index of the first white space at or after `from`.
pub fn scan_word(chars: &[char], from: usize) -> (r: usize)
    requires
        from <= chars@.len(),
    ensures
        r == skip_word(chars@, from as int),
        from <= r <= chars@.len(),
{
    let mut i: usize = from;
    while i < chars.len() && !space(chars[i])
        invariant
            from <= i <= chars@.len(),
            skip_word(chars@, from as int) == skip_word(chars@, i as int),
        decreases chars@.len() - i,
    {
        i += 1;
    }
    i
}

/// The index of the first comma at or after `from`.
pub fn scan_entry(chars: &[char], from: usize) -> (r: usize)
    requires
        from <= chars@.len(),
    ensures
        r == entry_end(chars@, from as int),
        from <= r <= chars@.len(),
{
    let mut i: usize = from;
    while i < chars.len() && chars[i] != ','
        invariant
            from <= i <= chars@.len(),
            entry_end(chars@, from as int) == entry_end(chars@, i as int),
        decreases chars@.len() - i,
    {
        i += 1;
    }
    i
}

/// Whether every character of `s` is a decimal digit.
pub open spec fn all_digits(s: Seq<char>) -> bool {
    forall|i: int| 0 <= i < s.len() ==> is_digit(#[trigger] s[i])
}

/// The number that the digits `s` write in base ten; 0 for no digits.
pub open spec fn digits_value(s: Seq<char>) -> int
    decreases s.len(),
{
    if s.len() == 0 {
        0
    } else {
        10 * digits_value(s.drop_last()) + digit_value(s.last())
    }
}

/// The integer that `s` writes: an optional sign `+` or `-`, then one or
/// more decimal digits and nothing else.
pub open spec fn integer_value(s: Seq<char>) -> Option<int> {
    if s.len() > 0 && (s[0] == '-' || s[0] == '+') {
        if s.len() > 1 && all_digits(s.skip(1)) {
            Some(if s[0] == '-' { -digits_value(s.skip(1)) } else { digits_value(s.skip(1)) })
        } else {
            None
        }
    } else if s.len() > 0 && all_digits(s) {
        Some(digits_value(s))
    } else {
        None
    }
}

/// The value of the list entry `s` for a unit with the values 0 to
/// `limit - 1`: the integer it writes, if it writes one of them.
pub open spec fn entry_value(s: Seq<char>, limit: int) -> Option<int> {
    match integer_value(s) {
        Some(v) => if 0 <= v < limit { Some(v) } else { None },
        None => None,
    }
}

/// Digits write a number that is no smaller than the one that any of their
/// prefixes writes.
pub proof fn lemma_digits_value_grows(s: Seq<char>, k: int)
    requires
        all_digits(s),
        0 <= k <= s.len(),
    ensures
        0 <= digits_value(s.take(k)) <= digits_value(s),
    decreases s.len() - k,
{
    if k == s.len() {
        assert(s.take(k) =~= s);
        lemma_digits_value_nonnegative(s);
    } else {
        lemma_digits_value_grows(s, k + 1);
        let t = s.take(k + 1);
        assert(t.drop_last() =~= s.take(k));
        assert(is_digit(s[k]));
        lemma_digits_value_nonnegative(s.take(k));
    }
}

/// Digits write no negative number.
pub proof fn lemma_digits_value_nonnegative(s: Seq<char>)
    requires
        all_digits(s),
    ensures
        0 <= digits_value(s),
    decreases s.len(),
{
    if s.len() > 0 {
        assert(is_digit(s[s.len() - 1]));
        lemma_digits_value_nonnegative(s.drop_last());
    }
}

/// Reads one list entry. The entry counts only if it writes a whole number
/// below `limit`; a sign is accepted as long as the number is one of the
/// unit's values.
pub fn parse_entry(entry: &[char], limit: u32) -> (r: Option<u32>)
    ensures
        r is Some <==> entry_value(entry@, limit as int) is Some,
        r matches Some(v) ==> entry_value(entry@, limit as int) == Some(v as int),
{
    let n: usize = entry.len();
    if n == 0 {
        return None;
    }
    let negative: bool = entry[0] == '-';
    let start: usize = if negative || entry[0] == '+' { 1 } else { 0 };
    if start == n {
        return None;
    }
    let ghost body = entry@.skip(start as int);
    assert(start == 0 ==> body =~= entry@);
    let mut acc: u64 = 0;
    let mut i: usize = start;
    while i < n
        invariant
            start <= i <= n,
            n == entry@.len(),
            body == entry@.skip(start as int),
            start == 0 ==> body == entry@,
            start <= 1,
            start == 1 <==> entry@[0] == '-' || entry@[0] == '+',
            negative <==> entry@[0] == '-',
            all_digits(body.take(i - start)),
            acc == digits_value(body.take(i - start)),
            acc < limit || i == start,
            acc <= u32::MAX,
        decreases n - i,
    {
        let c: char = entry[i];
        let u: u32 = c as u32;
        assert(c == body[i - start]);
        if u < 0x30 || u > 0x39 {
            assert(!all_digits(body));
            return None;
        }
        let ghost before = body.take(i - start);
        let ghost after = body.take(i - start + 1);
        assert(after.drop_last() =~= before);
        assert(after.last() == c);
        acc = acc * 10 + (u - 0x30) as u64;
        if acc >= limit as u64 {
            proof {
                if all_digits(body) {
                    lemma_digits_value_grows(body, i - start + 1);
                    assert(digits_value(body) >= limit);
                }
            }
            return None;
        }
        i += 1;
    }
    assert(body.take(n - start) =~= body);
    if negative && acc != 0 {
        return None;
    }
    Some(acc as u32)
}

/// The values of a field set as mathematical integers.
pub open spec fn ints(s: Seq<u32>) -> Seq<int> {
    s.map_values(|v: u32| v as int)
}

/// Whether each value of `s` is smaller than the next.
pub open spec fn strictly_increasing(s: Seq<int>) -> bool {
    forall|i: int, j: int| 0 <= i < j < s.len() ==> s[i] < s[j]
}

/// Whether `s` is a field set of a unit with the values 0 to `limit - 1`:
/// not empty, strictly increasing, every value one of the unit's.
pub open spec fn is_field_set(s: Seq<int>, limit: int) -> bool {
    &&& s.len() > 0
    &&& strictly_increasing(s)
    &&& forall|i: int| 0 <= i < s.len() ==> 0 <= #[trigger] s[i] < limit
}

/// Whether `s` holds the members of `values`, each once, in increasing
/// order. A set has one such sequence at most.
pub open spec fn lists(s: Seq<int>, values: Set<int>) -> bool {
    &&& strictly_increasing(s)
    &&& forall|v: int| values.contains(v) <==> s.contains(v)
}

/// A set is listed by one sequence at most: two sequences that hold its
/// members in increasing order are the same sequence.
pub proof fn lemma_listing_is_unique(a: Seq<int>, b: Seq<int>, values: Set<int>)
    requires
        lists(a, values),
        lists(b, values),
    ensures
        a == b,
    decreases a.len(),
{
    if a.len() == 0 || b.len() == 0 {
        if a.len() > 0 {
            assert(a.contains(a[0]));
            assert(b.contains(a[0]));
        }
        if b.len() > 0 {
            assert(b.contains(b[0]));
            assert(a.contains(b[0]));
        }
        assert(a =~= b);
    } else {
        let m = a.last();
        assert(a.contains(m));
        assert(b.contains(b.last()));
        let k = choose|k: int| 0 <= k < b.len() && b[k] == m;
        let j = choose|j: int| 0 <= j < a.len() && a[j] == b.last();
        assert(j < a.len() - 1 ==> a[j] < a[a.len() - 1]);
        assert(k < b.len() - 1 ==> b[k] < b[b.len() - 1]);
        assert(b.last() == m);
        let a1 = a.drop_last();
        let b1 = b.drop_last();
        let rest = values.remove(m);
        assert forall|v: int| rest.contains(v) <==> a1.contains(v) by {
            if rest.contains(v) {
                let i = choose|i: int| 0 <= i < a.len() && a[i] == v;
                assert(a1[i] == v);
            }
            if a1.contains(v) {
                let i = choose|i: int| 0 <= i < a1.len() && a1[i] == v;
                assert(a[i] == v);
                assert(a[i] < a[a.len() - 1]);
            }
        }
        assert forall|v: int| rest.contains(v) <==> b1.contains(v) by {
            if rest.contains(v) {
                let i = choose|i: int| 0 <= i < b.len() && b[i] == v;
                assert(b1[i] == v);
            }
            if b1.contains(v) {
                let i = choose|i: int| 0 <= i < b1.len() && b1[i] == v;
                assert(b[i] == v);
                assert(b[i] < b[b.len() - 1]);
            }
        }
        lemma_listing_is_unique(a1, b1, rest);
        assert(a =~= a1.push(m));
        assert(b =~= b1.push(m));
    }
}

/// The values that the comma-separated list in `s` names from index `i` on,
/// where `i` is the start of an entry; `None` if one of these entries is not
/// a value of the unit. A list has one entry more than it has commas, so an
/// empty list, a leading, a trailing or a doubled comma leave an empty entry.
pub open spec fn list_values(s: Seq<char>, i: int, limit: int) -> Option<Set<int>>
    decreases s.len() - i,
{
    let j = entry_end(s, i);
    match entry_value(s.subrange(i, j), limit) {
        None => None,
        Some(v) => if i <= j < s.len() {
            match list_values(s, j + 1, limit) {
                None => None,
                Some(rest) => Some(rest.insert(v)),
            }
        } else {
            Some(set![v])
        },
    }
}

/// The values that the token `s` selects in a unit with the values 0 to
/// `limit - 1`: all of them for `*`, else those of the list that `s` is.
pub open spec fn field_values(s: Seq<char>, limit: int) -> Option<Set<int>> {
    if s == seq!['*'] {
        Some(Set::new(|v: int| 0 <= v < limit))
    } else {
        list_values(s, 0, limit)
    }
}

/// A list that names values names at least one, and only values of the unit.
pub proof fn lemma_list_values_in_range(s: Seq<char>, i: int, limit: int)
    requires
        0 <= i <= s.len(),
    ensures
        list_values(s, i, limit) is Some ==> exists|v: int|
            list_values(s, i, limit)->0.contains(v),
        list_values(s, i, limit) is Some ==> forall|v: int|
            list_values(s, i, limit)->0.contains(v) ==> 0 <= v < limit,
    decreases s.len() - i,
{
    let j = entry_end(s, i);
    lemma_scan_bounds(s, i);
    if let Some(v) = entry_value(s.subrange(i, j), limit) {
        if j < s.len() {
            lemma_list_values_in_range(s, j + 1, limit);
            if let Some(rest) = list_values(s, j + 1, limit) {
                assert(list_values(s, i, limit) == Some(rest.insert(v)));
                assert(rest.insert(v).contains(v));
            }
        } else {
            assert(list_values(s, i, limit) == Some(set![v]));
            assert(set![v].contains(v));
        }
        assert(list_values(s, i, limit) is Some ==> list_values(s, i, limit)->0.contains(v));
    }
}

/// Puts `x` into the field set `v`, which keeps its order and holds no value
/// twice.
pub fn insert_sorted(v: &mut Vec<u32>, x: u32)
    requires
        strictly_increasing(ints(old(v)@)),
    ensures
        strictly_increasing(ints(final(v)@)),
        forall|y: int| ints(final(v)@).contains(y) <==> y == x || ints(old(v)@).contains(y),
{
    let ghost before = ints(v@);
    let mut p: usize = 0;
    while p < v.len() && v[p] < x
        invariant
            p <= v@.len(),
            *v == *old(v),
            forall|k: int| 0 <= k < p ==> v@[k] < x,
        decreases v@.len() - p,
    {
        p += 1;
    }
    if p < v.len() && v[p] == x {
        assert(before[p as int] == x);
        assert forall|y: int| ints(v@).contains(y) <==> y == x || before.contains(y) by {
            if y == x {
                assert(ints(v@)[p as int] == y);
            }
        }
        return ;
    }
    v.insert(p, x);
    let ghost after = ints(v@);
    assert(after =~= before.insert(p as int, x as int));
    assert forall|i: int, j: int| 0 <= i < j < after.len() implies after[i] < after[j] by {
        if i < p && j > p {
            assert(before[i] < x);
            assert(before[p as int] >= x);
            assert(j - 1 > p ==> before[p as int] < before[j - 1]);
        } else if i > p {
            assert(before[i - 1] < before[j - 1]);
        } else if j < p {
            assert(before[i] < before[j]);
        }
    }
    assert forall|y: int| after.contains(y) <==> y == x || before.contains(y) by {
        if y == x {
            assert(after[p as int] == y);
        }
        if before.contains(y) {
            let k = choose|k: int| 0 <= k < before.len() && before[k] == y;
            if k < p {
                assert(after[k] == y);
            } else {
                assert(after[k + 1] == y);
            }
        }
        if after.contains(y) && y != x {
            let k = choose|k: int| 0 <= k < after.len() && after[k] == y;
            if k < p {
                assert(before[k] == y);
            } else {
                assert(before[k - 1] == y);
            }
        }
    }
}

/// Whether the values of `total` are those of `rest` together with those
/// that `seen` holds, where `rest` is what is still to be read of a list; a
/// list that fails in the rest fails as a whole.
pub open spec fn completes(
    total: Option<Set<int>>,
    rest: Option<Set<int>>,
    seen: Seq<int>,
) -> bool {
    match rest {
        None => total is None,
        Some(r) => total is Some && forall|v: int|
            total->0.contains(v) <==> r.contains(v) || seen.contains(v),
    }
}

/// Reads a comma-separated list of values below `limit` into a field set.
pub fn parse_list(token: &[char], limit: u32) -> (r: Option<Vec<u32>>)
    ensures
        r is Some <==> list_values(token@, 0, limit as int) is Some,
        r matches Some(v) ==> lists(ints(v@), list_values(token@, 0, limit as int)->0),
{
    let n: usize = token.len();
    let ghost total = list_values(token@, 0, limit as int);
    let mut acc: Vec<u32> = Vec::new();
    let mut i: usize = 0;
    loop
        invariant
            n == token@.len(),
            i <= n,
            total == list_values(token@, 0, limit as int),
            strictly_increasing(ints(acc@)),
            completes(total, list_values(token@, i as int, limit as int), ints(acc@)),
        decreases n - i,
    {
        let j: usize = scan_entry(token, i);
        let entry: &[char] = slice_subrange(token, i, j);
        let ghost seen = ints(acc@);
        let ghost here = list_values(token@, i as int, limit as int);
        match parse_entry(entry, limit) {
            None => {
                assert(here is None);
                return None;
            },
            Some(v) => {
                insert_sorted(&mut acc, v);
                if j >= n {
                    assert(here == Some(set![v as int]));
                    assert forall|y: int| total->0.contains(y) <==> ints(acc@).contains(y) by {
                        assert(set![v as int].contains(y) <==> y == v);
                        assert(total->0.contains(y) <==> here->0.contains(y) || seen.contains(y));
                        assert(ints(acc@).contains(y) <==> y == v || seen.contains(y));
                    }
                    return Some(acc);
                }
                proof {
                    let next = list_values(token@, j + 1, limit as int);
                    if let Some(rest) = next {
                        assert(here == Some(rest.insert(v as int)));
                        assert forall|y: int|
                            total->0.contains(y) <==> rest.contains(y) || ints(acc@).contains(
                                y,
                            ) by {
                            assert(rest.insert(v as int).contains(y) <==> y == v || rest.contains(
                                y,
                            ));
                            assert(total->0.contains(y) <==> here->0.contains(y) || seen.contains(
                                y,
                            ));
                            assert(ints(acc@).contains(y) <==> y == v || seen.contains(y));
                        }
                    } else {
                        assert(here is None);
                    }
                }
                i = j + 1;
            },
        }
    }
}

/// A unit of time that a schedule has a field for.
#[derive(Clone, Copy, Debug, PartialEq, Eq, Structural)]
pub enum Unit {
    Second,
    Minute,
    Hour,
}

impl Unit {
    /// How many values the unit has, counted from 0: 60 seconds, 60 minutes,
    /// 24 hours.
    pub open spec fn span(self) -> int {
        match self {
            Unit::Second => 60,
            Unit::Minute => 60,
            Unit::Hour => 24,
        }
    }

    /// How many values the unit has.
    pub fn limit(self) -> (r: u32)
        ensures
            r == self.span(),
    {
        match self {
            Unit::Second => 60,
            Unit::Minute => 60,
            Unit::Hour => 24,
        }
    }
}

/// Why a schedule could not be built.
#[derive(Clone, Copy, Debug, PartialEq, Eq, Structural)]
pub enum CronError {
    /// The expression has fewer than three tokens, or one of the first three
    /// is neither `*` nor a list of values of its unit.
    InvalidExpression,
}

/// Every value of a unit with `limit` values, in order.
pub fn full_range(limit: u32) -> (r: Vec<u32>)
    ensures
        ints(r@) =~= Seq::new(limit as nat, |i: int| i),
{
    let mut r: Vec<u32> = Vec::new();
    let mut v: u32 = 0;
    while v < limit
        invariant
            v <= limit,
            r@.len() == v,
            forall|k: int| 0 <= k < v ==> r@[k] == k,
        decreases limit - v,
    {
        r.push(v);
        v += 1;
    }
    r
}

/// Reads one token of an expression into the field set of `unit`: every
/// value of the unit for `*`, else the values that the list names, sorted
/// and each once.
pub fn parse_field(token: &[char], unit: Unit) -> (r: Option<Vec<u32>>)
    ensures
        r is Some <==> field_values(token@, unit.span()) is Some,
        r matches Some(v) ==> lists(ints(v@), field_values(token@, unit.span())->0)
            && is_field_set(ints(v@), unit.span()),
        token@ == seq!['*'] ==> r is Some && ints(r->0@) == Seq::new(
            unit.span() as nat,
            |i: int| i,
        ),
{
    let limit: u32 = unit.limit();
    if token.len() == 1 && token[0] == '*' {
        assert(token@ =~= seq!['*']);
        let r = full_range(limit);
        proof {
            let s = ints(r@);
            let all = Set::new(|v: int| 0 <= v < limit);
            assert forall|v: int| all.contains(v) <==> s.contains(v) by {
                if all.contains(v) {
                    assert(s[v] == v);
                }
            }
        }
        return Some(r);
    }
    assert(token@ != seq!['*']) by {
        if token@ == seq!['*'] {
            assert(token@.len() == 1);
            assert(token@[0] == '*');
        }
    }
    match parse_list(token, limit) {
        None => None,
        Some(v) => {
            proof {
                let s = ints(v@);
                let values = list_values(token@, 0, limit as int)->0;
                lemma_list_values_in_range(token@, 0, limit as int);
                let w = choose|w: int| values.contains(w);
                assert(s.contains(w));
                assert forall|i: int| 0 <= i < s.len() implies 0 <= #[trigger] s[i] < limit by {
                    assert(s.contains(s[i]));
                }
            }
            Some(v)
        },
    }
}

/// The three sets of values that a schedule expression selects.
pub struct Fields {
    pub seconds: Set<int>,
    pub minutes: Set<int>,
    pub hours: Set<int>,
}

/// The meaning of a schedule expression. Its tokens are the runs of
/// characters between white space. The first three are the fields of the
/// seconds, the minutes and the hours, and what follows them is not read. An
/// expression with fewer tokens, or with a field that is neither `*` nor a
/// list of values of its unit, has no meaning.
pub open spec fn expression_fields(s: Seq<char>) -> Option<Fields> {
    let a0 = skip_spaces(s, 0);
    let b0 = skip_word(s, a0);
    let a1 = skip_spaces(s, b0);
    let b1 = skip_word(s, a1);
    let a2 = skip_spaces(s, b1);
    let b2 = skip_word(s, a2);
    let seconds = field_values(s.subrange(a0, b0), Unit::Second.span());
    let minutes = field_values(s.subrange(a1, b1), Unit::Minute.span());
    let hours = field_values(s.subrange(a2, b2), Unit::Hour.span());
    if a2 < s.len() && seconds is Some && minutes is Some && hours is Some {
        Some(Fields { seconds: seconds->0, minutes: minutes->0, hours: hours->0 })
    } else {
        None
    }
}

/// The field sets of a schedule: for each unit the values at which it fires.
#[derive(Clone, Debug, PartialEq, Eq)]
pub struct Schedule {
    pub second: Vec<u32>,
    pub minute: Vec<u32>,
    pub hour: Vec<u32>,
}

impl Schedule {
    /// Each field set is one of its unit: not empty, strictly increasing, in
    /// range.
    pub open spec fn wf(&self) -> bool {
        &&& is_field_set(ints(self.second@), Unit::Second.span())
        &&& is_field_set(ints(self.minute@), Unit::Minute.span())
        &&& is_field_set(ints(self.hour@), Unit::Hour.span())
    }

    /// The field sets hold exactly the values of `fields`.
    pub open spec fn holds(&self, fields: Fields) -> bool {
        &&& lists(ints(self.second@), fields.seconds)
        &&& lists(ints(self.minute@), fields.minutes)
        &&& lists(ints(self.hour@), fields.hours)
    }
}

/// Reads a schedule expression, given as its characters.
pub fn parse_expression(chars: &[char]) -> (r: Result<Schedule, CronError>)
    ensures
        r is Ok <==> expression_fields(chars@) is Some,
        r matches Ok(schedule) ==> schedule.wf() && schedule.holds(expression_fields(chars@)->0),
{
    let n: usize = chars.len();
    let a0: usize = scan_spaces(chars, 0);
    let b0: usize = scan_word(chars, a0);
    let a1: usize = scan_spaces(chars, b0);
    let b1: usize = scan_word(chars, a1);
    let a2: usize = scan_spaces(chars, b1);
    let b2: usize = scan_word(chars, a2);
    if a2 >= n {
        return Err(CronError::InvalidExpression);
    }
    let second = match parse_field(slice_subrange(chars, a0, b0), Unit::Second) {
        Some(v) => v,
        None => {
            return Err(CronError::InvalidExpression);
        },
    };
    let minute = match parse_field(slice_subrange(chars, a1, b1), Unit::Minute) {
        Some(v) => v,
        None => {
            return Err(CronError::InvalidExpression);
        },
    };
    let hour = match parse_field(slice_subrange(chars, a2, b2), Unit::Hour) {
        Some(v) => v,
        None => {
            return Err(CronError::InvalidExpression);
        },
    };
    Ok(Schedule { second, minute, hour })
}

} // verus!
