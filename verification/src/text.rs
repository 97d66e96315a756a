//! Character-level text utilities with their mathematical models.
//!
//! Strings are modelled by their view, a `Seq<char>`.  Each executable helper here
//! states its result over that view.
use vstd::prelude::*;

verus! {

// ---------------------------------------------------------------------------
// Character classes
// ---------------------------------------------------------------------------

pub open spec fn is_ascii_alpha(c: char) -> bool {
    (65 <= (c as u32) && (c as u32) <= 90) || (97 <= (c as u32) && (c as u32) <= 122)
}

pub open spec fn is_ascii_digit(c: char) -> bool {
    48 <= (c as u32) && (c as u32) <= 57
}

/// The Unicode `White_Space` property, which `char::is_whitespace` and `str::trim` use.
pub open spec fn is_ws(c: char) -> bool {
    let u = c as u32;
    ||| u == 0x20
    ||| (0x09 <= u && u <= 0x0d)
    ||| u == 0x85
    ||| u == 0xa0
    ||| u == 0x1680
    ||| (0x2000 <= u && u <= 0x200a)
    ||| u == 0x2028
    ||| u == 0x2029
    ||| u == 0x202f
    ||| u == 0x205f
    ||| u == 0x3000
}

pub open spec fn lower_char(c: char) -> char {
    if 65 <= (c as u32) && (c as u32) <= 90 {
        ((c as u32) + 32) as char
    } else {
        c
    }
}

pub open spec fn digit_char(d: nat) -> char {
    (48 + d) as char
}

pub open spec fn digit_value(c: char) -> nat {
    ((c as u32) - 48) as nat
}

// ---------------------------------------------------------------------------
// Sequence-level string functions
// ---------------------------------------------------------------------------

pub open spec fn starts_with(s: Seq<char>, p: Seq<char>) -> bool {
    p.len() <= s.len() && s.subrange(0, p.len() as int) == p
}

pub open spec fn ends_with(s: Seq<char>, p: Seq<char>) -> bool {
    p.len() <= s.len() && s.subrange(s.len() - p.len(), s.len() as int) == p
}

pub open spec fn trim_start(s: Seq<char>) -> Seq<char>
    decreases s.len(),
{
    if s.len() > 0 && is_ws(s[0]) {
        trim_start(s.drop_first())
    } else {
        s
    }
}

pub open spec fn trim_end(s: Seq<char>) -> Seq<char>
    decreases s.len(),
{
    if s.len() > 0 && is_ws(s.last()) {
        trim_end(s.drop_last())
    } else {
        s
    }
}

/// What `str::trim` leaves: the text without leading and trailing white space.
pub open spec fn trim(s: Seq<char>) -> Seq<char> {
    trim_end(trim_start(s))
}

/// What `str::to_ascii_lowercase` gives.
pub open spec fn lower(s: Seq<char>) -> Seq<char> {
    Seq::new(s.len(), |i: int| lower_char(s[i]))
}

/// `i` is the first position of `c` in `s`.
pub open spec fn is_first_index(s: Seq<char>, c: char, i: int) -> bool {
    &&& 0 <= i < s.len()
    &&& s[i] == c
    &&& forall|j: int| 0 <= j < i ==> s[j] != c
}

/// What `str::find` gives for a single character (as a character position).
pub open spec fn find_char(s: Seq<char>, c: char) -> Option<int> {
    if exists|i: int| 0 <= i < s.len() && s[i] == c {
        Some(choose|i: int| is_first_index(s, c, i))
    } else {
        None
    }
}

/// `i` is the first position where the two characters `a`, `b` occur in a row.
pub open spec fn is_first_pair(s: Seq<char>, a: char, b: char, i: int) -> bool {
    &&& 0 <= i && i + 1 < s.len()
    &&& s[i] == a && s[i + 1] == b
    &&& forall|j: int| #![trigger s[j]] 0 <= j < i ==> !(s[j] == a && s[j + 1] == b)
}

/// What `str::find` gives for the two-character pattern `ab`.
pub open spec fn find_pair(s: Seq<char>, a: char, b: char) -> Option<int> {
    if exists|i: int| #![trigger s[i]] 0 <= i && i + 1 < s.len() && s[i] == a && s[i + 1] == b {
        Some(choose|i: int| is_first_pair(s, a, b, i))
    } else {
        None
    }
}

/// What `str::split` on a single character gives.
pub open spec fn split_char(s: Seq<char>, c: char) -> Seq<Seq<char>>
    decreases s.len(),
{
    match find_char(s, c) {
        Some(i) => if 0 <= i < s.len() {
            seq![s.take(i)] + split_char(s.skip(i + 1), c)
        } else {
            seq![s]
        },
        None => seq![s],
    }
}

/// The parts joined with `sep` between them, as `[String]::join` does.
pub open spec fn join(parts: Seq<Seq<char>>, sep: Seq<char>) -> Seq<char>
    decreases parts.len(),
{
    if parts.len() == 0 {
        Seq::empty()
    } else if parts.len() == 1 {
        parts[0]
    } else {
        join(parts.drop_last(), sep) + sep + parts.last()
    }
}

/// Decimal digits of a natural number.
pub open spec fn dec_nat(n: nat) -> Seq<char>
    decreases n,
{
    if n < 10 {
        seq![digit_char(n)]
    } else {
        dec_nat(n / 10).push(digit_char(n % 10))
    }
}

/// Decimal text of an integer, with a leading `-` when it is negative.
pub open spec fn dec_int(n: int) -> Seq<char> {
    if n < 0 {
        seq!['-'] + dec_nat((-n) as nat)
    } else {
        dec_nat(n as nat)
    }
}

/// Left-padded with `0` up to `width` characters, as the format spec `{:0w}` does.
pub open spec fn pad_zeros(s: Seq<char>, width: nat) -> Seq<char> {
    if s.len() >= width {
        s
    } else {
        Seq::new((width - s.len()) as nat, |i: int| '0') + s
    }
}

pub open spec fn all_digits(d: Seq<char>) -> bool {
    forall|i: int| 0 <= i < d.len() ==> is_ascii_digit(d[i])
}

pub open spec fn digits_value(d: Seq<char>) -> nat
    decreases d.len(),
{
    if d.len() == 0 {
        0
    } else {
        digits_value(d.drop_last()) * 10 + digit_value(d.last())
    }
}

/// The integer written in `s` by the grammar of Rust's `FromStr` for integers:
/// an optional sign (`-` only where `signed`), then one or more ASCII digits.
pub open spec fn parse_int(s: Seq<char>, signed: bool) -> Option<int> {
    if s.len() == 0 {
        None
    } else {
        let neg = signed && s[0] == '-';
        let d = if s[0] == '+' || neg {
            s.drop_first()
        } else {
            s
        };
        if d.len() == 0 || !all_digits(d) {
            None
        } else if neg {
            Some(-(digits_value(d) as int))
        } else {
            Some(digits_value(d) as int)
        }
    }
}

/// What `str::parse::<i64>` accepts and gives.
pub open spec fn parse_i64(s: Seq<char>) -> Option<int> {
    match parse_int(s, true) {
        Some(v) => if i64::MIN <= v <= i64::MAX {
            Some(v)
        } else {
            None
        },
        None => None,
    }
}

/// What `str::parse::<usize>` accepts and gives.
pub open spec fn parse_usize(s: Seq<char>) -> Option<int> {
    match parse_int(s, false) {
        Some(v) => if v <= usize::MAX {
            Some(v)
        } else {
            None
        },
        None => None,
    }
}

/// Views of a sequence of strings.
pub open spec fn views(v: Seq<String>) -> Seq<Seq<char>> {
    Seq::new(v.len(), |i: int| v[i]@)
}

// ---------------------------------------------------------------------------
// Lemmas
// ---------------------------------------------------------------------------

pub proof fn lemma_first_index_unique(s: Seq<char>, c: char, i: int)
    requires
        is_first_index(s, c, i),
    ensures
        find_char(s, c) == Some(i),
{
    let k = choose|k: int| is_first_index(s, c, k);
    assert(is_first_index(s, c, k));
    if k < i {
        assert(s[k] != c);
    } else if i < k {
        assert(s[i] != c);
    }
}

pub proof fn lemma_first_pair_unique(s: Seq<char>, a: char, b: char, i: int)
    requires
        is_first_pair(s, a, b, i),
    ensures
        find_pair(s, a, b) == Some(i),
{
    let k = choose|k: int| is_first_pair(s, a, b, k);
    assert(is_first_pair(s, a, b, k));
    if k < i {
        assert(!(s[k] == a && s[k + 1] == b));
    } else if i < k {
        assert(!(s[i] == a && s[i + 1] == b));
    }
}

pub proof fn lemma_find_char(s: Seq<char>, c: char)
    ensures
        match find_char(s, c) {
            Some(j) => is_first_index(s, c, j),
            None => forall|k: int| 0 <= k < s.len() ==> s[k] != c,
        },
{
    if exists|i: int| 0 <= i < s.len() && s[i] == c {
        let i = choose|i: int| 0 <= i < s.len() && s[i] == c;
        lemma_least_index(s, c, i);
    }
}

proof fn lemma_least_index(s: Seq<char>, c: char, i: int)
    requires
        0 <= i < s.len(),
        s[i] == c,
    ensures
        exists|f: int| is_first_index(s, c, f),
    decreases i,
{
    if exists|j: int| 0 <= j < i && s[j] == c {
        let j = choose|j: int| 0 <= j < i && s[j] == c;
        lemma_least_index(s, c, j);
    } else {
        assert(is_first_index(s, c, i));
    }
}

pub proof fn lemma_find_pair(s: Seq<char>, a: char, b: char)
    ensures
        match find_pair(s, a, b) {
            Some(j) => is_first_pair(s, a, b, j),
            None => forall|k: int| #![trigger s[k]] 0 <= k && k + 1 < s.len() ==> !(s[k] == a && s[k + 1] == b),
        },
{
    if exists|i: int| #![trigger s[i]] 0 <= i && i + 1 < s.len() && s[i] == a && s[i + 1] == b {
        let i = choose|i: int| #![trigger s[i]] 0 <= i && i + 1 < s.len() && s[i] == a && s[i + 1]
            == b;
        lemma_least_pair(s, a, b, i);
    }
}

proof fn lemma_least_pair(s: Seq<char>, a: char, b: char, i: int)
    requires
        0 <= i && i + 1 < s.len(),
        s[i] == a && s[i + 1] == b,
    ensures
        exists|f: int| is_first_pair(s, a, b, f),
    decreases i,
{
    if exists|j: int| #![trigger s[j]] 0 <= j < i && s[j] == a && s[j + 1] == b {
        let j = choose|j: int| #![trigger s[j]] 0 <= j < i && s[j] == a && s[j + 1] == b;
        lemma_least_pair(s, a, b, j);
    } else {
        assert(is_first_pair(s, a, b, i));
    }
}

pub proof fn lemma_digits_value_prefix(d: Seq<char>, k: int)
    requires
        0 <= k <= d.len(),
    ensures
        digits_value(d.take(k)) <= digits_value(d),
    decreases d.len() - k,
{
    if k < d.len() {
        lemma_digits_value_prefix(d, k + 1);
        assert(d.take(k + 1).drop_last() =~= d.take(k));
    } else {
        assert(d.take(k) =~= d);
    }
}

pub proof fn lemma_views_push(v: Seq<String>, x: String)
    ensures
        views(v.push(x)) == views(v).push(x@),
{
    assert(views(v.push(x)) =~= views(v).push(x@));
}

// ---------------------------------------------------------------------------
// Executable helpers
// ---------------------------------------------------------------------------

/// Appends `c` to `s` with `String::push`. The contract claims that the text of `s`
/// grows by exactly that character and is otherwise unchanged.
#[verifier::external_body]
fn push_char(s: &mut String, c: char)
    ensures
        final(s)@ == old(s)@.push(c),
{
    s.push(c);
}

/// The characters of a string slice, in order.
pub fn chars_of(s: &str) -> (v: Vec<char>)
    ensures
        v@ == s@,
{
    let mut v: Vec<char> = Vec::new();
    for c in it: s.chars()
        invariant
            v@ == it.seq().take(it.index() as int),
            it.seq() == s@,
    {
        v.push(c);
    }
    v
}

/// A `String` holding `v[lo..hi]`.
pub fn string_of_range(v: &Vec<char>, lo: usize, hi: usize) -> (r: String)
    requires
        lo <= hi <= v.len(),
    ensures
        r@ == v@.subrange(lo as int, hi as int),
{
    let mut r = String::new();
    let mut i = lo;
    while i < hi
        invariant
            lo <= i <= hi <= v.len(),
            r@ == v@.subrange(lo as int, i as int),
        decreases hi - i,
    {
        push_char(&mut r, v[i]);
        i = i + 1;
        assert(r@ =~= v@.subrange(lo as int, i as int));
    }
    r
}

/// A `String` holding all of `v`.
pub fn string_of(v: &Vec<char>) -> (r: String)
    ensures
        r@ == v@,
{
    let r = string_of_range(v, 0, v.len());
    assert(v@.subrange(0, v@.len() as int) =~= v@);
    r
}

/// An owned copy of a string slice.
pub fn owned(s: &str) -> (r: String)
    ensures
        r@ == s@,
{
    String::from_str(s)
}

/// Appends a string slice.
pub fn append(r: &mut String, s: &str)
    ensures
        final(r)@ == old(r)@ + s@,
{
    r.append(s);
}

/// Appends the strings `xs` to `v`, in order.
pub fn extend_strings(v: &mut Vec<String>, xs: &[String])
    ensures
        views(final(v)@) == views(old(v)@) + views(xs@),
{
    let mut j: usize = 0;
    while j < xs.len()
        invariant
            j <= xs@.len(),
            views(v@) == views(old(v)@) + views(xs@).take(j as int),
        decreases xs.len() - j,
    {
        let x = xs[j].clone();
        proof {
            lemma_views_push(v@, x);
        }
        v.push(x);
        j = j + 1;
        assert(views(v@) =~= views(old(v)@) + views(xs@).take(j as int));
    }
    assert(views(xs@).take(xs@.len() as int) =~= views(xs@));
}

/// Copies of every string in `v`.
pub fn clone_strings(v: &[String]) -> (r: Vec<String>)
    ensures
        views(r@) == views(v@),
        r@.len() == v@.len(),
{
    let mut r: Vec<String> = Vec::new();
    let mut i: usize = 0;
    while i < v.len()
        invariant
            i <= v@.len(),
            r@.len() == i,
            forall|j: int| 0 <= j < i ==> r@[j]@ == v@[j]@,
        decreases v.len() - i,
    {
        r.push(v[i].clone());
        i = i + 1;
    }
    assert(views(r@) =~= views(v@));
    r
}

/// Whether `s` is one of the strings of `v`.
pub fn contains_string(v: &[String], s: &str) -> (r: bool)
    ensures
        r == views(v@).contains(s@),
{
    let mut i: usize = 0;
    while i < v.len()
        invariant
            i <= v@.len(),
            forall|j: int| 0 <= j < i ==> v@[j]@ != s@,
        decreases v.len() - i,
    {
        if str_eq(v[i].as_str(), s) {
            assert(views(v@)[i as int] == s@);
            return true;
        }
        i = i + 1;
    }
    assert(!views(v@).contains(s@)) by {
        if views(v@).contains(s@) {
            let k = choose|k: int| 0 <= k < views(v@).len() && views(v@)[k] == s@;
            assert(v@[k]@ == s@);
        }
    }
    false
}

/// Whether two character vectors hold the same characters.
pub fn chars_eq(a: &Vec<char>, b: &Vec<char>) -> (r: bool)
    ensures
        r == (a@ == b@),
{
    if a.len() != b.len() {
        return false;
    }
    let mut i: usize = 0;
    while i < a.len()
        invariant
            a@.len() == b@.len(),
            i <= a@.len(),
            forall|j: int| 0 <= j < i ==> a@[j] == b@[j],
        decreases a.len() - i,
    {
        if a[i] != b[i] {
            return false;
        }
        i = i + 1;
    }
    assert(a@ =~= b@);
    true
}

/// Whether two string slices are equal.
pub fn str_eq(a: &str, b: &str) -> (r: bool)
    ensures
        r == (a@ == b@),
{
    let ca = chars_of(a);
    let cb = chars_of(b);
    chars_eq(&ca, &cb)
}

/// Whether `v` begins with `p`.
pub fn chars_start_with(v: &Vec<char>, p: &Vec<char>) -> (r: bool)
    ensures
        r == starts_with(v@, p@),
{
    if p.len() > v.len() {
        return false;
    }
    let mut i: usize = 0;
    while i < p.len()
        invariant
            p@.len() <= v@.len(),
            i <= p@.len(),
            forall|j: int| 0 <= j < i ==> v@[j] == p@[j],
        decreases p.len() - i,
    {
        if v[i] != p[i] {
            assert(v@.subrange(0, p@.len() as int)[i as int] != p@[i as int]);
            return false;
        }
        i = i + 1;
    }
    assert(v@.subrange(0, p@.len() as int) =~= p@);
    true
}

/// Whether `v` ends with `p`.
pub fn chars_end_with(v: &Vec<char>, p: &Vec<char>) -> (r: bool)
    ensures
        r == ends_with(v@, p@),
{
    if p.len() > v.len() {
        return false;
    }
    let off: usize = v.len() - p.len();
    let mut i: usize = 0;
    while i < p.len()
        invariant
            p@.len() <= v@.len(),
            off == v@.len() - p@.len(),
            off + p@.len() == v@.len(),
            v@.len() <= usize::MAX,
            i <= p@.len(),
            forall|j: int| 0 <= j < i ==> v@[off + j] == p@[j],
        decreases p.len() - i,
    {
        if v[off + i] != p[i] {
            assert(v@.subrange(off as int, v@.len() as int)[i as int] != p@[i as int]);
            return false;
        }
        i = i + 1;
    }
    assert(v@.subrange(off as int, v@.len() as int) =~= p@);
    true
}

/// Whether string `s` begins with string `p`.
pub fn str_starts_with(s: &str, p: &str) -> (r: bool)
    ensures
        r == starts_with(s@, p@),
{
    chars_start_with(&chars_of(s), &chars_of(p))
}

/// Whether string `s` ends with string `p`.
pub fn str_ends_with(s: &str, p: &str) -> (r: bool)
    ensures
        r == ends_with(s@, p@),
{
    chars_end_with(&chars_of(s), &chars_of(p))
}

/// The first position of `c` in `v[from..]`, counted from the start of `v`.
pub fn find_char_from(v: &Vec<char>, c: char, from: usize) -> (r: Option<usize>)
    requires
        from <= v.len(),
    ensures
        r == (match find_char(v@.skip(from as int), c) {
            Some(i) => Some((i + from) as usize),
            None => None::<usize>,
        }),
        r matches Some(i) ==> from <= i < v.len() && v@[i as int] == c,
{
    let ghost s = v@.skip(from as int);
    let mut i = from;
    while i < v.len()
        invariant
            from <= i <= v.len(),
            s == v@.skip(from as int),
            forall|j: int| from <= j < i ==> v@[j] != c,
        decreases v.len() - i,
    {
        if v[i] == c {
            proof {
                assert(is_first_index(s, c, i - from));
                lemma_first_index_unique(s, c, i - from);
            }
            return Some(i);
        }
        i = i + 1;
    }
    assert(!(exists|k: int| 0 <= k < s.len() && s[k] == c)) by {
        assert forall|k: int| 0 <= k < s.len() implies s[k] != c by {
            assert(s[k] == v@[k + from]);
        }
    }
    None
}

/// The first position of `c` in `v`.
pub fn find_char_in(v: &Vec<char>, c: char) -> (r: Option<usize>)
    ensures
        r == (match find_char(v@, c) {
            Some(i) => Some(i as usize),
            None => None::<usize>,
        }),
        r matches Some(i) ==> i < v.len() && v@[i as int] == c,
{
    assert(v@.skip(0) =~= v@);
    find_char_from(v, c, 0)
}

/// The first position of the pair `a b` in `v`.
pub fn find_pair_in(v: &Vec<char>, a: char, b: char) -> (r: Option<usize>)
    ensures
        r == (match find_pair(v@, a, b) {
            Some(i) => Some(i as usize),
            None => None::<usize>,
        }),
        r matches Some(i) ==> i + 1 < v.len() && v@[i as int] == a && v@[i + 1] == b,
{
    let mut i: usize = 0;
    while i < v.len()
        invariant
            i <= v@.len(),
            forall|j: int| #![trigger v@[j]] 0 <= j < i && j + 1 < v@.len() ==> !(v@[j] == a && v@[j + 1] == b),
        decreases v.len() - i,
    {
        if i + 1 < v.len() && v[i] == a && v[i + 1] == b {
            proof {
                assert(is_first_pair(v@, a, b, i as int));
                lemma_first_pair_unique(v@, a, b, i as int);
            }
            return Some(i);
        }
        i = i + 1;
    }
    None
}

/// Whether `c` has the Unicode `White_Space` property.
pub fn char_is_ws(c: char) -> (r: bool)
    ensures
        r == is_ws(c),
{
    let u = c as u32;
    u == 0x20 || (0x09 <= u && u <= 0x0d) || u == 0x85 || u == 0xa0 || u == 0x1680 || (0x2000
        <= u && u <= 0x200a) || u == 0x2028 || u == 0x2029 || u == 0x202f || u == 0x205f || u
        == 0x3000
}

/// Whether `c` is an ASCII letter.
pub fn char_is_ascii_alpha(c: char) -> (r: bool)
    ensures
        r == is_ascii_alpha(c),
{
    let u = c as u32;
    (65 <= u && u <= 90) || (97 <= u && u <= 122)
}

pub proof fn lemma_trim_start_skip(s: Seq<char>, k: int)
    requires
        0 <= k <= s.len(),
        forall|j: int| 0 <= j < k ==> is_ws(s[j]),
    ensures
        trim_start(s) == trim_start(s.skip(k)),
    decreases k,
{
    if k > 0 {
        assert(s.drop_first().skip(k - 1) =~= s.skip(k));
        lemma_trim_start_skip(s.drop_first(), k - 1);
    } else {
        assert(s.skip(0) =~= s);
    }
}

pub proof fn lemma_trim_end_take(s: Seq<char>, k: int)
    requires
        0 <= k <= s.len(),
        forall|j: int| k <= j < s.len() ==> is_ws(s[j]),
    ensures
        trim_end(s) == trim_end(s.take(k)),
    decreases s.len() - k,
{
    if k < s.len() {
        assert(s.drop_last().take(k) =~= s.take(k));
        lemma_trim_end_take(s.drop_last(), k);
    } else {
        assert(s.take(k) =~= s);
    }
}

/// The bounds `lo..hi` of the trimmed part of `v`.
pub fn trim_bounds(v: &Vec<char>) -> (r: (usize, usize))
    ensures
        r.0 <= r.1 <= v.len(),
        v@.subrange(r.0 as int, r.1 as int) == trim(v@),
{
    let mut lo: usize = 0;
    while lo < v.len() && char_is_ws(v[lo])
        invariant
            lo <= v.len(),
            forall|j: int| 0 <= j < lo ==> is_ws(v@[j]),
        decreases v.len() - lo,
    {
        lo = lo + 1;
    }
    proof {
        lemma_trim_start_skip(v@, lo as int);
    }
    let mut hi = v.len();
    while hi > lo && char_is_ws(v[hi - 1])
        invariant
            lo <= hi <= v.len(),
            forall|j: int| hi <= j < v.len() ==> is_ws(v@[j]),
        decreases hi,
    {
        hi = hi - 1;
    }
    proof {
        let t = v@.skip(lo as int);
        assert(trim_start(t) == t);
        lemma_trim_end_take(t, (hi - lo) as int);
        assert(t.take((hi - lo) as int) =~= v@.subrange(lo as int, hi as int));
        let u = v@.subrange(lo as int, hi as int);
        if u.len() > 0 {
            assert(!is_ws(u.last()));
        }
    }
    (lo, hi)
}

/// Text without leading and trailing white space (`str::trim`).
pub fn trim_str(s: &str) -> (r: String)
    ensures
        r@ == trim(s@),
{
    let v = chars_of(s);
    let (lo, hi) = trim_bounds(&v);
    string_of_range(&v, lo, hi)
}

/// Appends the decimal digits of `n`.
pub fn push_decimal(s: &mut String, n: u64)
    ensures
        final(s)@ == old(s)@ + dec_nat(n as nat),
    decreases n,
{
    if n >= 10 {
        push_decimal(s, n / 10);
    }
    let d = (n % 10) as u8;
    let c = (48u8 + d) as char;
    assert(c == digit_char((n % 10) as nat));
    push_char(s, c);
    proof {
        if n >= 10 {
            assert(old(s)@ + dec_nat(n as nat) =~= old(s)@ + dec_nat((n / 10) as nat) + seq![c]);
        } else {
            assert(old(s)@ + dec_nat(n as nat) =~= old(s)@.push(c));
        }
    }
}

/// Appends the decimal text of `n`, with a `-` when it is negative.
pub fn push_decimal_i64(s: &mut String, n: i64)
    ensures
        final(s)@ == old(s)@ + dec_int(n as int),
{
    if n < 0 {
        push_char(s, '-');
        let m: u64 = if n == i64::MIN {
            9223372036854775808u64
        } else {
            (-n) as u64
        };
        push_decimal(s, m);
        assert(old(s)@ + dec_int(n as int) =~= old(s)@.push('-') + dec_nat(m as nat));
    } else {
        push_decimal(s, n as u64);
    }
}

pub proof fn lemma_dec_nat_len(n: nat)
    ensures
        dec_nat(n).len() >= 1,
        n < 10 ==> dec_nat(n).len() == 1,
        10 <= n < 100 ==> dec_nat(n).len() == 2,
        100 <= n < 1000 ==> dec_nat(n).len() == 3,
        1000 <= n < 10000 ==> dec_nat(n).len() == 4,
    decreases n,
{
    if n >= 10 {
        lemma_dec_nat_len(n / 10);
    }
}

/// The decimal text of `n` reads back as `n`.
pub proof fn lemma_dec_nat_digits(n: nat)
    ensures
        all_digits(dec_nat(n)),
        digits_value(dec_nat(n)) == n,
        dec_nat(n).len() >= 1,
    decreases n,
{
    lemma_dec_nat_len(n);
    if n >= 10 {
        lemma_dec_nat_digits(n / 10);
        let d = dec_nat(n);
        assert(d.drop_last() =~= dec_nat(n / 10));
        assert(d.last() == digit_char(n % 10));
        assert(digit_value(digit_char(n % 10)) == n % 10);
        assert(digits_value(d) == digits_value(d.drop_last()) * 10 + digit_value(d.last()));
        assert((n / 10) * 10 + n % 10 == n);
        assert(forall|i: int| 0 <= i < d.len() ==> is_ascii_digit(#[trigger] d[i])) by {
            assert forall|i: int| 0 <= i < d.len() implies is_ascii_digit(#[trigger] d[i]) by {
                if i < d.len() - 1 {
                    assert(d[i] == dec_nat(n / 10)[i]);
                }
            }
        }
    } else {
        let d = dec_nat(n);
        assert(d.drop_last() =~= Seq::<char>::empty());
        assert(digit_value(digit_char(n)) == n);
        assert(digits_value(d.drop_last()) == 0);
        assert(digits_value(d) == digits_value(d.drop_last()) * 10 + digit_value(d.last()));
    }
}

/// `str::parse::<usize>` reads the decimal text of any `n` that fits back as `n`.
pub proof fn lemma_parse_usize_dec_nat(n: nat)
    requires
        n <= usize::MAX,
    ensures
        parse_usize(dec_nat(n)) == Some(n as int),
{
    lemma_dec_nat_digits(n);
    let d = dec_nat(n);
    assert(is_ascii_digit(d[0]));
}

/// Appends `n` zero-padded to at least `width` digits (the format spec `{:0width}`).
pub fn push_padded(s: &mut String, n: u64, width: usize)
    ensures
        final(s)@ == old(s)@ + pad_zeros(dec_nat(n as nat), width as nat),
{
    let mut digits = String::new();
    push_decimal(&mut digits, n);
    let dv = chars_of(digits.as_str());
    let mut k = dv.len();
    let ghost start = s@;
    while k < width
        invariant
            dv.len() <= k <= width || (k == dv.len() && k >= width),
            s@ == start + Seq::new((k - dv.len()) as nat, |i: int| '0'),
        decreases width - k,
    {
        push_char(s, '0');
        k = k + 1;
        assert(s@ =~= start + Seq::new((k - dv.len()) as nat, |i: int| '0'));
    }
    append(s, digits.as_str());
    proof {
        let d = dec_nat(n as nat);
        assert(digits@ =~= Seq::empty() + d);
        if d.len() >= width {
            assert(s@ =~= start + d);
        } else {
            assert(s@ =~= start + (Seq::new((width - d.len()) as nat, |i: int| '0') + d));
        }
    }
}

/// Parses `v[from..]` as ASCII digits; gives their value when all are digits and the
/// value is at most 2^64, and `None` otherwise.
fn parse_digits(v: &Vec<char>, from: usize) -> (r: Option<u128>)
    requires
        from <= v.len(),
    ensures
        r matches Some(x) ==> all_digits(v@.skip(from as int)) && x == digits_value(
            v@.skip(from as int),
        ) && x <= 0x1_0000_0000_0000_0000,
        r is None ==> !all_digits(v@.skip(from as int)) || digits_value(v@.skip(from as int))
            > 0x1_0000_0000_0000_0000,
{
    let ghost d = v@.skip(from as int);
    let mut acc: u128 = 0;
    let mut i = from;
    while i < v.len()
        invariant
            from <= i <= v.len(),
            d == v@.skip(from as int),
            all_digits(d.take(i - from)),
            acc == digits_value(d.take(i - from)),
            acc <= 0x1_0000_0000_0000_0000,
        decreases v.len() - i,
    {
        let c = v[i];
        let u = c as u32;
        if u < 48 || u > 57 {
            assert(!is_ascii_digit(d[i - from]));
            return None;
        }
        let nd = (u - 48) as u128;
        let next = acc * 10 + nd;
        proof {
            assert(d.take(i - from + 1).drop_last() =~= d.take(i - from));
            assert(d.take(i - from + 1).last() == c);
        }
        if next > 0x1_0000_0000_0000_0000 {
            proof {
                lemma_digits_value_prefix(d, i - from + 1);
            }
            return None;
        }
        acc = next;
        i = i + 1;
    }
    assert(d.take(i - from) =~= d);
    Some(acc)
}

/// `str::parse::<i64>`.
pub fn parse_i64_str(s: &str) -> (r: Option<i64>)
    ensures
        r matches Some(x) ==> parse_i64(s@) == Some(x as int),
        r is None ==> parse_i64(s@) is None,
{
    let v = chars_of(s);
    if v.len() == 0 {
        return None;
    }
    let neg = v[0] == '-';
    let start: usize = if v[0] == '+' || neg {
        1
    } else {
        0
    };
    assert(start == 1 ==> v@.skip(1) =~= v@.drop_first());
    assert(start == 0 ==> v@.skip(0) =~= v@);
    if start >= v.len() {
        return None;
    }
    match parse_digits(&v, start) {
        None => None,
        Some(x) => {
            if neg {
                if x > 9223372036854775808u128 {
                    None
                } else {
                    let y = -(x as i128);
                    Some(y as i64)
                }
            } else {
                if x > 9223372036854775807u128 {
                    None
                } else {
                    Some(x as i64)
                }
            }
        },
    }
}

/// `str::parse::<usize>`.
pub fn parse_usize_str(s: &str) -> (r: Option<usize>)
    ensures
        r matches Some(x) ==> parse_usize(s@) == Some(x as int),
        r is None ==> parse_usize(s@) is None,
{
    let v = chars_of(s);
    if v.len() == 0 {
        return None;
    }
    let start: usize = if v[0] == '+' {
        1
    } else {
        0
    };
    assert(start == 1 ==> v@.skip(1) =~= v@.drop_first());
    assert(start == 0 ==> v@.skip(0) =~= v@);
    if start >= v.len() {
        return None;
    }
    match parse_digits(&v, start) {
        None => None,
        Some(x) => {
            if x > usize::MAX as u128 {
                None
            } else {
                Some(x as usize)
            }
        },
    }
}

/// The strings joined with `sep` between them (`[String]::join`).
pub fn join_strings(parts: &[String], sep: &str) -> (r: String)
    ensures
        r@ == join(views(parts@), sep@),
{
    let mut r = String::new();
    let mut i: usize = 0;
    while i < parts.len()
        invariant
            i <= parts@.len(),
            r@ == join(views(parts@).take(i as int), sep@),
        decreases parts.len() - i,
    {
        let ghost pv = views(parts@);
        if i > 0 {
            append(&mut r, sep);
        }
        append(&mut r, parts[i].as_str());
        proof {
            assert(pv.take(i + 1).drop_last() =~= pv.take(i as int));
            if i == 0 {
                assert(r@ =~= pv.take(1)[0]);
            }
        }
        i = i + 1;
    }
    assert(views(parts@).take(parts@.len() as int) =~= views(parts@));
    r
}

/// The parts of `s` between occurrences of `c` (`str::split` on a character).
pub fn split_str(s: &str, c: char) -> (r: Vec<String>)
    ensures
        views(r@) == split_char(s@, c),
{
    let v = chars_of(s);
    let mut parts: Vec<String> = Vec::new();
    let mut from: usize = 0;
    assert(v@.skip(0) =~= v@);
    assert(views(parts@) =~= Seq::<Seq<char>>::empty());
    loop
        invariant
            from <= v@.len(),
            v@ == s@,
            split_char(v@, c) == views(parts@) + split_char(v@.skip(from as int), c),
        decreases v@.len() - from,
    {
        let ghost rest = v@.skip(from as int);
        proof {
            lemma_find_char(rest, c);
        }
        let found = find_char_from(&v, c, from);
        let end = match found {
            Some(i) => i,
            None => v.len(),
        };
        let seg = string_of_range(&v, from, end);
        proof {
            lemma_views_push(parts@, seg);
        }
        parts.push(seg);
        match found {
            Some(i) => {
                proof {
                    assert(rest.skip(i - from + 1) =~= v@.skip(i + 1));
                    assert(rest.take(i - from) =~= v@.subrange(from as int, i as int));
                    assert(split_char(rest, c) =~= seq![rest.take(i - from)] + split_char(
                        v@.skip(i + 1),
                        c,
                    ));
                    assert(split_char(v@, c) =~= views(parts@) + split_char(v@.skip(i + 1), c));
                }
                from = i + 1;
            },
            None => {
                proof {
                    assert(rest =~= v@.subrange(from as int, v@.len() as int));
                    assert(split_char(v@, c) =~= views(parts@));
                }
                return parts;
            },
        }
    }
}

} // verus!
