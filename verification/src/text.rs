//! Text as the network writes it: decimal numbers, padding to a width, and
//! the numbered names that segments, nodes and trains get when the caller
//! gives none.

use vstd::prelude::*;
use vstd::set_lib::lemma_len_subset;

verus! {

/// The character that stands for the digit `d`.
pub open spec fn digit_char(d: int) -> char {
    if d == 0 {
        '0'
    } else if d == 1 {
        '1'
    } else if d == 2 {
        '2'
    } else if d == 3 {
        '3'
    } else if d == 4 {
        '4'
    } else if d == 5 {
        '5'
    } else if d == 6 {
        '6'
    } else if d == 7 {
        '7'
    } else if d == 8 {
        '8'
    } else {
        '9'
    }
}

/// The digit that `c` stands for, if it is one.
pub open spec fn digit_of(c: char) -> Option<int> {
    if c == '0' {
        Some(0)
    } else if c == '1' {
        Some(1)
    } else if c == '2' {
        Some(2)
    } else if c == '3' {
        Some(3)
    } else if c == '4' {
        Some(4)
    } else if c == '5' {
        Some(5)
    } else if c == '6' {
        Some(6)
    } else if c == '7' {
        Some(7)
    } else if c == '8' {
        Some(8)
    } else if c == '9' {
        Some(9)
    } else {
        None
    }
}

/// `n` written in base ten, without leading zeros.
pub open spec fn decimal(n: nat) -> Seq<char>
    decreases n,
{
    if n < 10 {
        seq![digit_char(n as int)]
    } else {
        decimal(n / 10).push(digit_char((n % 10) as int))
    }
}

/// `n` copies of `c`.
pub open spec fn repeated(c: char, n: nat) -> Seq<char> {
    Seq::new(n, |i: int| c)
}

/// `s` with as many copies of `fill` in front as it takes to reach `width`
/// characters; `s` itself when it is that wide already.
pub open spec fn filled_left(s: Seq<char>, width: nat, fill: char) -> Seq<char> {
    if s.len() >= width {
        s
    } else {
        repeated(fill, (width - s.len()) as nat) + s
    }
}

/// `s` behind leading zeros, at least `width` characters wide.
pub open spec fn zero_padded(s: Seq<char>, width: nat) -> Seq<char> {
    filled_left(s, width, '0')
}

/// `s` behind leading blanks, at least `width` characters wide.
pub open spec fn right_aligned(s: Seq<char>, width: nat) -> Seq<char> {
    filled_left(s, width, ' ')
}

/// The name made of `prefix` and the number `n` in at least `width` digits.
pub open spec fn numbered(prefix: Seq<char>, n: nat, width: nat) -> Seq<char> {
    prefix + zero_padded(decimal(n), width)
}

/// The number that a string of digits stands for. A character that is no
/// digit counts as zero.
pub open spec fn digits_value(s: Seq<char>) -> nat
    decreases s.len(),
{
    if s.len() == 0 {
        0
    } else {
        let d = match digit_of(s.last()) {
            Some(d) => d as nat,
            None => 0nat,
        };
        digits_value(s.drop_last()) * 10 + d
    }
}

/// Reading back what `decimal` wrote gives the number.
pub proof fn lemma_decimal_value(n: nat)
    ensures
        digits_value(decimal(n)) == n,
        decimal(n).len() > 0,
    decreases n,
{
    if n < 10 {
        let s = decimal(n);
        assert(s.drop_last() =~= Seq::<char>::empty());
        assert(digits_value(s.drop_last()) == 0);
    } else {
        lemma_decimal_value(n / 10);
        let s = decimal(n);
        assert(s.drop_last() =~= decimal(n / 10));
        assert(s.last() == digit_char((n % 10) as int));
    }
}

/// Leading zeros do not change the number that digits stand for.
pub proof fn lemma_leading_zeros_value(k: nat, s: Seq<char>)
    ensures
        digits_value(repeated('0', k) + s) == digits_value(s),
    decreases s.len(), k,
{
    let z = repeated('0', k);
    if s.len() == 0 {
        assert(z + s =~= z);
        if k > 0 {
            assert(z.drop_last() =~= repeated('0', (k - 1) as nat) + s);
            lemma_leading_zeros_value((k - 1) as nat, s);
        }
    } else {
        assert((z + s).drop_last() =~= z + s.drop_last());
        lemma_leading_zeros_value(k, s.drop_last());
    }
}

/// Different numbers make different names.
pub proof fn lemma_numbered_injective(prefix: Seq<char>, a: nat, b: nat, width: nat)
    requires
        numbered(prefix, a, width) == numbered(prefix, b, width),
    ensures
        a == b,
{
    let x = zero_padded(decimal(a), width);
    let y = zero_padded(decimal(b), width);
    assert((prefix + x).subrange(prefix.len() as int, (prefix + x).len() as int) =~= x);
    assert((prefix + y).subrange(prefix.len() as int, (prefix + y).len() as int) =~= y);
    assert(x == y);
    lemma_decimal_value(a);
    lemma_decimal_value(b);
    if decimal(a).len() < width {
        lemma_leading_zeros_value((width - decimal(a).len()) as nat, decimal(a));
    }
    if decimal(b).len() < width {
        lemma_leading_zeros_value((width - decimal(b).len()) as nat, decimal(b));
    }
}

/// A numbered name is never empty.
pub proof fn lemma_numbered_nonempty(prefix: Seq<char>, n: nat, width: nat)
    ensures
        numbered(prefix, n, width).len() > 0,
{
    lemma_decimal_value(n);
}

/// The names numbered 1 to `m`, as a set of `m` members.
proof fn lemma_numbered_set(prefix: Seq<char>, width: nat, m: nat) -> (s: Set<Seq<char>>)
    ensures
        s.finite(),
        s.len() == m,
        forall|x: Seq<char>|
            s.contains(x) <==> exists|j: nat| 1 <= j <= m && x == #[trigger] numbered(prefix, j, width),
    decreases m,
{
    if m == 0 {
        Set::empty()
    } else {
        let t = lemma_numbered_set(prefix, width, (m - 1) as nat);
        let last = numbered(prefix, m, width);
        if t.contains(last) {
            let j = choose|j: nat| 1 <= j <= m - 1 && last == #[trigger] numbered(prefix, j, width);
            lemma_numbered_injective(prefix, j, m, width);
        }
        let s = t.insert(last);
        assert forall|x: Seq<char>| s.contains(x) implies exists|j: nat|
            1 <= j <= m && x == #[trigger] numbered(prefix, j, width) by {
            if x == last {
                assert(1 <= m <= m && x == numbered(prefix, m, width));
            } else {
                let j = choose|j: nat| 1 <= j <= m - 1 && x == #[trigger] numbered(prefix, j, width);
                assert(1 <= j <= m && x == numbered(prefix, j, width));
            }
        }
        assert forall|x: Seq<char>|
            (exists|j: nat| 1 <= j <= m && x == #[trigger] numbered(prefix, j, width)) implies s.contains(
            x,
        ) by {
            let j = choose|j: nat| 1 <= j <= m && x == #[trigger] numbered(prefix, j, width);
            if j < m {
                assert(1 <= j <= m - 1 && x == numbered(prefix, j, width));
            }
        }
        s
    }
}

/// Where every name numbered 1 to `m` occurs among `names`, there are at
/// least `m` of them.
pub proof fn lemma_numbered_names_bound(names: Seq<Seq<char>>, prefix: Seq<char>, width: nat, m: nat)
    requires
        forall|j: nat| 1 <= j <= m ==> names.contains(#[trigger] numbered(prefix, j, width)),
    ensures
        m <= names.len(),
{
    let s = lemma_numbered_set(prefix, width, m);
    assert forall|x: Seq<char>| s.contains(x) implies names.to_set().contains(x) by {
        let j = choose|j: nat| 1 <= j <= m && x == #[trigger] numbered(prefix, j, width);
        assert(names.contains(numbered(prefix, j, width)));
    }
    assert(s.subset_of(names.to_set()));
    names.lemma_cardinality_of_set();
    lemma_len_subset(s, names.to_set());
}

/// `k` is the lowest number from 1 on whose name is not among `names`.
pub open spec fn is_first_free(names: Seq<Seq<char>>, prefix: Seq<char>, width: nat, k: nat) -> bool {
    &&& k >= 1
    &&& !names.contains(numbered(prefix, k, width))
    &&& forall|j: nat| 1 <= j < k ==> names.contains(#[trigger] numbered(prefix, j, width))
}

/// The lowest number from 1 on whose name is not among `names`.
pub open spec fn first_free(names: Seq<Seq<char>>, prefix: Seq<char>, width: nat) -> nat {
    choose|k: nat| is_first_free(names, prefix, width, k)
}

/// There is one lowest free number only.
pub proof fn lemma_first_free(names: Seq<Seq<char>>, prefix: Seq<char>, width: nat, k: nat)
    requires
        is_first_free(names, prefix, width, k),
    ensures
        first_free(names, prefix, width) == k,
{
    let c = first_free(names, prefix, width);
    assert(is_first_free(names, prefix, width, c));
    if c < k {
        assert(names.contains(numbered(prefix, c, width)));
    }
    if k < c {
        assert(names.contains(numbered(prefix, k, width)));
    }
}

/// From `k` on, some number is free, if all below `k` are taken.
proof fn lemma_free_from(names: Seq<Seq<char>>, prefix: Seq<char>, width: nat, k: nat)
    requires
        k >= 1,
        forall|j: nat| 1 <= j < k ==> names.contains(#[trigger] numbered(prefix, j, width)),
    ensures
        exists|f: nat| is_first_free(names, prefix, width, f),
    decreases names.len() + 1 - k,
{
    if !names.contains(numbered(prefix, k, width)) {
        assert(is_first_free(names, prefix, width, k));
    } else {
        lemma_numbered_names_bound(names, prefix, width, k);
        lemma_free_from(names, prefix, width, k + 1);
    }
}

/// Some number is always free, so the lowest free number is one.
pub proof fn lemma_first_free_exists(names: Seq<Seq<char>>, prefix: Seq<char>, width: nat)
    ensures
        is_first_free(names, prefix, width, first_free(names, prefix, width)),
{
    lemma_free_from(names, prefix, width, 1);
}

/// `a` stands before `b` or equals it, in the order of strings: character
/// by character from the front, by code point, a prefix before what it is
/// a prefix of.
pub open spec fn comes_first(a: Seq<char>, b: Seq<char>) -> bool
    decreases a.len(),
{
    if a.len() == 0 {
        true
    } else if b.len() == 0 {
        false
    } else if a[0] != b[0] {
        (a[0] as u32) < (b[0] as u32)
    } else {
        comes_first(a.drop_first(), b.drop_first())
    }
}

/// No name stands behind one that comes after it.
pub open spec fn ascending(names: Seq<Seq<char>>) -> bool {
    forall|i: int, j: int| 0 <= i < j < names.len() ==> comes_first(#[trigger] names[i], #[trigger] names[j])
}

/// `sorted` holds the names of `names`, each as often as it occurs there,
/// in ascending order.
pub open spec fn sorted_from(sorted: Seq<Seq<char>>, names: Seq<Seq<char>>) -> bool {
    ascending(sorted) && sorted.to_multiset() == names.to_multiset()
}

/// The names of `names` in ascending order.
pub open spec fn in_order(names: Seq<Seq<char>>) -> Seq<Seq<char>> {
    choose|sorted: Seq<Seq<char>>| sorted_from(sorted, names)
}

/// Two names of which each comes first are the same name.
pub proof fn lemma_comes_first_antisymmetric(a: Seq<char>, b: Seq<char>)
    requires
        comes_first(a, b),
        comes_first(b, a),
    ensures
        a == b,
    decreases a.len(),
{
    if a.len() == 0 {
        assert(a =~= b);
    } else {
        lemma_comes_first_antisymmetric(a.drop_first(), b.drop_first());
        assert(a =~= seq![a[0]] + a.drop_first());
        assert(b =~= seq![b[0]] + b.drop_first());
    }
}

/// There is one way only to put names in ascending order: two ascending
/// lists of the same names are the same list.
pub proof fn lemma_sorted_unique(a: Seq<Seq<char>>, b: Seq<Seq<char>>)
    requires
        ascending(a),
        ascending(b),
        a.to_multiset() == b.to_multiset(),
    ensures
        a == b,
    decreases a.len(),
{
    a.to_multiset_ensures();
    b.to_multiset_ensures();
    if a.len() == 0 {
        assert(a =~= b);
    } else {
        assert(a.contains(a[0]));
        assert(a.to_multiset().count(a[0]) > 0);
        assert(b.contains(a[0]));
        assert(b.contains(b[0]));
        assert(b.to_multiset().count(b[0]) > 0);
        assert(a.contains(b[0]));
        let k = choose|k: int| 0 <= k < b.len() && b[k] == a[0];
        let m = choose|m: int| 0 <= m < a.len() && a[m] == b[0];
        if k != 0 && m != 0 {
            assert(comes_first(b[0], b[k]));
            assert(comes_first(a[0], a[m]));
            lemma_comes_first_antisymmetric(a[0], b[0]);
        }
        assert(a[0] == b[0]);
        assert(a.drop_first() =~= a.remove(0));
        assert(b.drop_first() =~= b.remove(0));
        let ra = a.drop_first();
        let rb = b.drop_first();
        assert(ra.to_multiset() =~= rb.to_multiset());
        assert forall|i: int, j: int| 0 <= i < j < ra.len() implies comes_first(
            #[trigger] ra[i],
            #[trigger] ra[j],
        ) by {
            assert(comes_first(a[i + 1], a[j + 1]));
        }
        assert forall|i: int, j: int| 0 <= i < j < rb.len() implies comes_first(
            #[trigger] rb[i],
            #[trigger] rb[j],
        ) by {
            assert(comes_first(b[i + 1], b[j + 1]));
        }
        lemma_sorted_unique(ra, rb);
        assert(a =~= seq![a[0]] + ra);
        assert(b =~= seq![b[0]] + rb);
    }
}

/// A list that holds the names of `names` in ascending order is the list of
/// them in order.
pub proof fn lemma_in_order(sorted: Seq<Seq<char>>, names: Seq<Seq<char>>)
    requires
        sorted_from(sorted, names),
    ensures
        in_order(names) == sorted,
{
    lemma_sorted_unique(in_order(names), sorted);
}

/// The digit `d` as text.
fn digit_str(d: u128) -> (text: &'static str)
    requires
        d < 10,
    ensures
        text@ == seq![digit_char(d as int)],
{
    proof {
        reveal_strlit("0");
        reveal_strlit("1");
        reveal_strlit("2");
        reveal_strlit("3");
        reveal_strlit("4");
        reveal_strlit("5");
        reveal_strlit("6");
        reveal_strlit("7");
        reveal_strlit("8");
        reveal_strlit("9");
    }
    let text = if d == 0 {
        "0"
    } else if d == 1 {
        "1"
    } else if d == 2 {
        "2"
    } else if d == 3 {
        "3"
    } else if d == 4 {
        "4"
    } else if d == 5 {
        "5"
    } else if d == 6 {
        "6"
    } else if d == 7 {
        "7"
    } else if d == 8 {
        "8"
    } else {
        "9"
    };
    assert(text@ =~= seq![digit_char(d as int)]);
    text
}

/// Writes `n` in base ten.
pub fn format_decimal(n: u128) -> (text: String)
    ensures
        text@ == decimal(n as nat),
    decreases n,
{
    if n < 10 {
        String::from_str(digit_str(n))
    } else {
        let mut text = format_decimal(n / 10);
        let digit = digit_str(n % 10);
        text.append(digit);
        assert(text@ =~= decimal((n / 10) as nat).push(digit_char((n % 10) as int)));
        text
    }
}

/// Puts copies of the one character of `fill` in front of `s` until it is
/// `width` characters wide.
fn fill_left(s: &str, width: usize, fill: &str) -> (text: String)
    requires
        fill@.len() == 1,
    ensures
        text@ == filled_left(s@, width as nat, fill@[0]),
{
    let len: usize = s.unicode_len();
    let mut text = String::new();
    let mut i: usize = len;
    assert(text@ =~= repeated(fill@[0], 0));
    while i < width
        invariant
            fill@.len() == 1,
            len <= i,
            i <= width || i == len,
            text@ == repeated(fill@[0], (i - len) as nat),
        decreases width - i,
    {
        text.append(fill);
        i = i + 1;
        assert(text@ =~= repeated(fill@[0], (i - len) as nat));
    }
    text.append(s);
    assert(len >= width ==> text@ =~= s@);
    text
}

/// `s` behind leading zeros, at least `width` characters wide.
pub fn zero_pad(s: &str, width: usize) -> (text: String)
    ensures
        text@ == zero_padded(s@, width as nat),
{
    proof {
        reveal_strlit("0");
    }
    fill_left(s, width, "0")
}

/// `s` behind leading blanks, at least `width` characters wide.
pub fn right_align(s: &str, width: usize) -> (text: String)
    ensures
        text@ == right_aligned(s@, width as nat),
{
    proof {
        reveal_strlit(" ");
    }
    fill_left(s, width, " ")
}

/// The name made of `prefix` and the number `n` in at least `width` digits.
pub fn numbered_name(prefix: &str, n: u128, width: usize) -> (name: String)
    ensures
        name@ == numbered(prefix@, n as nat, width as nat),
{
    let digits = format_decimal(n);
    let padded = zero_pad(digits.as_str(), width);
    let mut name = String::from_str(prefix);
    name.append(padded.as_str());
    name
}

/// White space as `char::is_whitespace` has it.
pub open spec fn is_space(c: char) -> bool {
    let u = c as u32;
    ||| 0x09 <= u <= 0x0D
    ||| u == 0x20
    ||| u == 0x85
    ||| u == 0xA0
    ||| u == 0x1680
    ||| 0x2000 <= u <= 0x200A
    ||| u == 0x2028
    ||| u == 0x2029
    ||| u == 0x202F
    ||| u == 0x205F
    ||| u == 0x3000
}

/// `s` without the white space in front.
pub open spec fn trim_start(s: Seq<char>) -> Seq<char>
    decreases s.len(),
{
    if s.len() > 0 && is_space(s[0]) {
        trim_start(s.drop_first())
    } else {
        s
    }
}

/// `s` without the white space at the end.
pub open spec fn trim_end(s: Seq<char>) -> Seq<char>
    decreases s.len(),
{
    if s.len() > 0 && is_space(s.last()) {
        trim_end(s.drop_last())
    } else {
        s
    }
}

/// `s` without the white space around it.
pub open spec fn trimmed(s: Seq<char>) -> Seq<char> {
    trim_end(trim_start(s))
}

/// Every character of `s` is a digit.
pub open spec fn all_digits(s: Seq<char>) -> bool {
    forall|i: int| 0 <= i < s.len() ==> digit_of(#[trigger] s[i]) is Some
}

/// The number that `s` writes: digits, at least one, behind a plus sign or
/// none. Nothing else writes a number.
pub open spec fn written_number(s: Seq<char>) -> Option<nat> {
    let digits = if s.len() > 0 && s[0] == '+' {
        s.drop_first()
    } else {
        s
    };
    if digits.len() > 0 && all_digits(digits) {
        Some(digits_value(digits))
    } else {
        None
    }
}

/// The number that `s` writes, if it fits in 32 bits.
pub open spec fn written_u32(s: Seq<char>) -> Option<u32> {
    match written_number(s) {
        Some(v) => if v <= u32::MAX {
            Some(v as u32)
        } else {
            None
        },
        None => None,
    }
}

/// The segment name that a number stands for: `tseg` and the number that
/// `input` writes between white space, in three digits at least. Empty
/// where `input` writes no number.
pub open spec fn segment_name_from(input: Seq<char>) -> Seq<char> {
    match written_u32(trimmed(input)) {
        Some(n) => numbered("tseg"@, n as nat, 3),
        None => Seq::<char>::empty(),
    }
}

/// Digits that begin a longer string of digits stand for no more than the
/// whole.
proof fn lemma_prefix_value(s: Seq<char>, k: int)
    requires
        0 <= k <= s.len(),
    ensures
        digits_value(s.take(k)) <= digits_value(s),
    decreases s.len(),
{
    if k == s.len() {
        assert(s.take(k) =~= s);
    } else {
        assert(s.drop_last().take(k) =~= s.take(k));
        lemma_prefix_value(s.drop_last(), k);
        assert(digits_value(s.drop_last()) <= digits_value(s.drop_last()) * 10) by (nonlinear_arith);
    }
}

/// Whether `c` is white space.
fn is_space_char(c: char) -> (space: bool)
    ensures
        space == is_space(c),
{
    let u: u32 = c as u32;
    (0x09 <= u && u <= 0x0D) || u == 0x20 || u == 0x85 || u == 0xA0 || u == 0x1680 || (0x2000 <= u
        && u <= 0x200A) || u == 0x2028 || u == 0x2029 || u == 0x202F || u == 0x205F || u == 0x3000
}

/// The digit that `c` stands for.
fn digit_value(c: char) -> (digit: Option<u64>)
    ensures
        match digit {
            Some(d) => digit_of(c) == Some(d as int),
            None => digit_of(c) is None,
        },
{
    if c == '0' {
        Some(0)
    } else if c == '1' {
        Some(1)
    } else if c == '2' {
        Some(2)
    } else if c == '3' {
        Some(3)
    } else if c == '4' {
        Some(4)
    } else if c == '5' {
        Some(5)
    } else if c == '6' {
        Some(6)
    } else if c == '7' {
        Some(7)
    } else if c == '8' {
        Some(8)
    } else if c == '9' {
        Some(9)
    } else {
        None
    }
}

/// `s` without the white space around it.
pub fn trim(s: &str) -> (inner: &str)
    ensures
        inner@ == trimmed(s@),
{
    let len: usize = s.unicode_len();
    let mut from: usize = 0;
    assert(s@.subrange(0, len as int) =~= s@);
    while from < len && is_space_char(s.get_char(from))
        invariant
            from <= len,
            len == s@.len(),
            trim_start(s@) == trim_start(s@.subrange(from as int, len as int)),
        decreases len - from,
    {
        assert(s@.subrange(from as int, len as int).drop_first() =~= s@.subrange(
            from + 1,
            len as int,
        ));
        from = from + 1;
    }
    let mut to: usize = len;
    while to > from && is_space_char(s.get_char(to - 1))
        invariant
            from <= to <= len,
            len == s@.len(),
            trimmed(s@) == trim_end(s@.subrange(from as int, to as int)),
        decreases to - from,
    {
        assert(s@.subrange(from as int, to as int).drop_last() =~= s@.subrange(
            from as int,
            to - 1,
        ));
        to = to - 1;
    }
    s.substring_char(from, to)
}

/// Reads a number of 32 bits as `u32::from_str` does: digits behind a plus
/// sign or none.
pub fn parse_u32(s: &str) -> (value: Option<u32>)
    ensures
        value == written_u32(s@),
{
    let len: usize = s.unicode_len();
    if len == 0 {
        return None;
    }
    let start: usize = if s.get_char(0) == '+' {
        1
    } else {
        0
    };
    if start == len {
        return None;
    }
    let ghost digits = s@.subrange(start as int, len as int);
    assert(digits =~= if s@.len() > 0 && s@[0] == '+' {
        s@.drop_first()
    } else {
        s@
    });
    let mut v: u64 = 0;
    let mut i: usize = start;
    assert(digits.take(0) =~= Seq::<char>::empty());
    while i < len
        invariant
            start <= i <= len,
            len == s@.len(),
            digits == s@.subrange(start as int, len as int),
            written_number(s@) == (if all_digits(digits) {
                Some(digits_value(digits))
            } else {
                None
            }),
            all_digits(digits.take(i - start)),
            v == digits_value(digits.take(i - start)),
            v <= u32::MAX,
        decreases len - i,
    {
        let c = s.get_char(i);
        assert(c == digits[i - start]);
        let ghost upto = digits.take(i - start + 1);
        assert(upto.drop_last() =~= digits.take(i - start));
        assert(upto.last() == c);
        match digit_value(c) {
            None => {
                assert(digit_of(digits[i - start]) is None);
                return None;
            },
            Some(d) => {
                v = v * 10 + d;
                assert forall|k: int| 0 <= k < upto.len() implies digit_of(#[trigger] upto[k]) is Some by {
                    if k < upto.len() - 1 {
                        assert(upto[k] == digits.take(i - start)[k]);
                    }
                }
                if v > 0xFFFF_FFFF {
                    proof {
                        lemma_prefix_value(digits, i - start + 1);
                    }
                    return None;
                }
            },
        }
        i = i + 1;
    }
    assert(digits.take(len - start) =~= digits);
    Some(v as u32)
}

/// The name of the segment that the number in `num` stands for: see
/// `segment_name_from`.
pub fn name_from_number(num: &String) -> (name: String)
    ensures
        name@ == segment_name_from(num@),
{
    match parse_u32(trim(num.as_str())) {
        Some(n) => numbered_name("tseg", n as u128, 3),
        None => String::new(),
    }
}

} // verus!
