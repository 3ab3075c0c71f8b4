//! Character-level helpers shared by the move parser, the board printer
//! and the network protocol.
use vstd::prelude::*;

verus! {

broadcast use vstd::string::group_string_axioms;

/// Appends one character to a `String`.
///
/// Trusted: calls `String::push`, documented as appending the given `char`
/// to the end of the string; the contract claims exactly that.
#[verifier::external_body]
pub(crate) fn push_char(s: &mut String, c: char)
    ensures
        final(s)@ == old(s)@.push(c),
{
    s.push(c);
}

/// The characters of a string slice, in order.
pub fn chars_of(s: &str) -> (out: Vec<char>)
    ensures
        out@ == s@,
{
    let mut out: Vec<char> = Vec::new();
    for c in it: s.chars()
        invariant
            out@ == it.seq().take(it.index() as int),
            it.seq() == s@,
    {
        out.push(c);
    }
    out
}

} // verus!

verus! {

/// Code point of `c` after ASCII lower-casing: `A`..`Z` become `a`..`z`,
/// every other character keeps its code.
pub open spec fn lower_of(c: char) -> int {
    if 65 <= (c as u32) && (c as u32) <= 90 {
        (c as u32) + 32
    } else {
        c as u32 as int
    }
}

/// `c` is one of the ASCII decimal digits.
pub open spec fn is_digit(c: char) -> bool {
    48 <= (c as u32) && (c as u32) <= 57
}

/// Value of an ASCII decimal digit.
pub open spec fn digit_of(c: char) -> int {
    (c as u32) - 48
}

/// `c` is an ASCII character.
pub open spec fn is_ascii_char(c: char) -> bool {
    (c as u32) < 128
}

/// The first character of the lower-case form of `c`, by Unicode's
/// default case mapping.
pub uninterp spec fn lowercase_first(c: char) -> char;

/// Code point of the first character of `c`'s lower-case form: on ASCII
/// the ASCII lower-casing, elsewhere the code of [`lowercase_first`].
pub open spec fn lower_code_of(c: char) -> int {
    if is_ascii_char(c) {
        lower_of(c)
    } else {
        lowercase_first(c) as u32 as int
    }
}

/// The first character of the lower-case form of `c`.
///
/// Trusted: calls `char::to_lowercase`, whose iterator always yields at
/// least one character, and takes the first.  The contract names that
/// character and states only what std's documentation and Unicode's
/// mapping of ASCII give: an ASCII character is lower-cased as
/// `to_ascii_lowercase` does (`A`..`Z` become `a`..`z`, the rest stay).
/// What it gives for other characters is left unsaid.
#[verifier::external_body]
fn first_lowercase(c: char) -> (r: char)
    ensures
        r == lowercase_first(c),
        is_ascii_char(c) ==> r as u32 == lower_of(c),
{
    c.to_lowercase().next().unwrap()
}

/// Code point of the first character of `c`'s lower-case form.
pub fn lower_code(c: char) -> (r: u32)
    ensures
        r == lower_code_of(c),
{
    first_lowercase(c) as u32
}

/// Value of a decimal digit character.
pub fn digit_value(c: char) -> (r: i32)
    requires
        is_digit(c),
    ensures
        r == digit_of(c),
        0 <= r <= 9,
{
    let v = c as u32;
    (v - 48) as i32
}

} // verus!

verus! {

/// `p` occurs in `s` at position `i`.
pub open spec fn matches_at(s: Seq<char>, p: Seq<char>, i: int) -> bool {
    0 <= i && i + p.len() <= s.len() && s.subrange(i, i + p.len()) == p
}

/// `p` occurs somewhere in `s`.
pub open spec fn contains_pat(s: Seq<char>, p: Seq<char>) -> bool {
    exists|i: int| matches_at(s, p, i)
}

/// The pieces of `s` from `start` on, scanning for the separator `p` from
/// position `i`: at each match the current piece ends and the next one
/// starts after the separator; matches do not overlap.
pub open spec fn split_scan(s: Seq<char>, p: Seq<char>, start: int, i: int) -> Seq<Seq<char>>
    decreases s.len() - i,
{
    if p.len() == 0 || i < 0 || i + p.len() > s.len() {
        seq![s.subrange(start, s.len() as int)]
    } else if matches_at(s, p, i) {
        seq![s.subrange(start, i)] + split_scan(s, p, i + p.len(), i + p.len())
    } else {
        split_scan(s, p, start, i + 1)
    }
}

/// `s` split at every (non-overlapping, leftmost-first) occurrence of the
/// non-empty separator `p`, as `str::split` does.
pub open spec fn split_by(s: Seq<char>, p: Seq<char>) -> Seq<Seq<char>> {
    split_scan(s, p, 0, 0)
}

/// `s` with every occurrence of the character `c` removed.
pub open spec fn without_char(s: Seq<char>, c: char) -> Seq<char>
    decreases s.len(),
{
    if s.len() == 0 {
        s
    } else if s.last() == c {
        without_char(s.drop_last(), c)
    } else {
        without_char(s.drop_last(), c).push(s.last())
    }
}

/// A split never yields an empty list of pieces.
pub proof fn lemma_split_scan_nonempty(s: Seq<char>, p: Seq<char>, start: int, i: int)
    ensures
        split_scan(s, p, start, i).len() >= 1,
    decreases s.len() - i,
{
    if p.len() == 0 || i < 0 || i + p.len() > s.len() {
    } else if matches_at(s, p, i) {
        lemma_split_scan_nonempty(s, p, i + p.len(), i + p.len());
    } else {
        lemma_split_scan_nonempty(s, p, start, i + 1);
    }
}

/// Whether `p` occurs in `s` at position `i`.
fn matches_at_exec(s: &Vec<char>, p: &Vec<char>, i: usize) -> (r: bool)
    requires
        i + p@.len() <= s@.len(),
    ensures
        r == matches_at(s@, p@, i as int),
{
    let slen = s.len();
    let mut k: usize = 0;
    while k < p.len()
        invariant
            0 <= k <= p@.len(),
            slen == s@.len(),
            i + p@.len() <= s@.len(),
            forall|j: int| 0 <= j < k ==> s@[i + j] == p@[j],
        decreases p@.len() - k,
    {
        if s[i + k] != p[k] {
            assert(s@.subrange(i as int, i + p@.len())[k as int] != p@[k as int]);
            return false;
        }
        k = k + 1;
    }
    assert(s@.subrange(i as int, i + p@.len()) =~= p@);
    true
}

/// Whether `p` occurs in `s`.
pub fn contains_str(s: &str, p: &str) -> (r: bool)
    ensures
        r == contains_pat(s@, p@),
{
    let sc = chars_of(s);
    let pc = chars_of(p);
    if pc.len() > sc.len() {
        assert forall|i: int| !matches_at(s@, p@, i) by {}
        return false;
    }
    let last = sc.len() - pc.len();
    let mut i: usize = 0;
    while i < last
        invariant
            sc@ == s@,
            pc@ == p@,
            last + pc@.len() == sc@.len(),
            0 <= i <= last,
            forall|j: int| 0 <= j < i ==> !matches_at(s@, p@, j),
        decreases last - i,
    {
        if matches_at_exec(&sc, &pc, i) {
            return true;
        }
        i = i + 1;
    }
    if matches_at_exec(&sc, &pc, last) {
        return true;
    }
    assert forall|j: int| !matches_at(s@, p@, j) by {
        if 0 <= j < i {
        }
    }
    false
}

/// `s` split at every occurrence of the non-empty separator `p`
/// (`str::split`).
pub fn split_on<'a>(s: &'a str, p: &str) -> (out: Vec<&'a str>)
    requires
        p@.len() > 0,
    ensures
        out.deep_view() == split_by(s@, p@),
{
    let sc = chars_of(s);
    let pc = chars_of(p);
    let mut out: Vec<&'a str> = Vec::new();
    let mut start: usize = 0;
    let mut i: usize = 0;
    while pc.len() <= sc.len() - i
        invariant
            sc@ == s@,
            pc@ == p@,
            p@.len() > 0,
            0 <= start <= i <= sc@.len(),
            out.deep_view() + split_scan(s@, p@, start as int, i as int) == split_by(s@, p@),
        decreases sc@.len() - i,
    {
        if matches_at_exec(&sc, &pc, i) {
            let piece = s.substring_char(start, i);
            let ghost before = out.deep_view();
            out.push(piece);
            assert(out.deep_view() =~= before.push(piece@));
            start = i + pc.len();
            i = start;
            assert(before.push(piece@) + split_scan(s@, p@, start as int, i as int) =~= before
                + (seq![piece@] + split_scan(s@, p@, start as int, i as int)));
        } else {
            i = i + 1;
        }
    }
    let piece = s.substring_char(start, sc.len());
    let ghost before = out.deep_view();
    out.push(piece);
    assert(out.deep_view() =~= before.push(piece@));
    assert(before.push(piece@) =~= before + seq![piece@]);
    out
}

} // verus!

verus! {

/// The concatenation of all pieces, in order.
pub open spec fn concat_all(ps: Seq<Seq<char>>) -> Seq<char>
    decreases ps.len(),
{
    if ps.len() == 0 {
        Seq::empty()
    } else {
        concat_all(ps.drop_last()) + ps.last()
    }
}

/// `s` with every occurrence of the non-empty pattern `p` deleted
/// (`str::replace(p, "")`).
pub open spec fn delete_all(s: Seq<char>, p: Seq<char>) -> Seq<char> {
    concat_all(split_by(s, p))
}

/// A `String` holding the given characters.
pub fn string_from_chars(v: &Vec<char>) -> (s: String)
    ensures
        s@ == v@,
{
    let mut s = String::new();
    let mut i: usize = 0;
    while i < v.len()
        invariant
            0 <= i <= v@.len(),
            s@ == v@.take(i as int),
        decreases v@.len() - i,
    {
        push_char(&mut s, v[i]);
        i = i + 1;
        assert(s@ =~= v@.take(i as int));
    }
    assert(v@.take(v@.len() as int) =~= v@);
    s
}

/// Whether two strings hold the same characters.
pub fn same_text(a: &str, b: &str) -> (r: bool)
    ensures
        r == (a@ == b@),
{
    let x = chars_of(a);
    let y = chars_of(b);
    if x.len() != y.len() {
        return false;
    }
    let mut i: usize = 0;
    while i < x.len()
        invariant
            x@ == a@,
            y@ == b@,
            x@.len() == y@.len(),
            0 <= i <= x@.len(),
            forall|j: int| 0 <= j < i ==> x@[j] == y@[j],
        decreases x@.len() - i,
    {
        if x[i] != y[i] {
            return false;
        }
        i = i + 1;
    }
    assert(x@ =~= y@);
    true
}

/// `s` with every occurrence of the non-empty pattern `p` deleted.
pub fn delete_str(s: &str, p: &str) -> (out: String)
    requires
        p@.len() > 0,
    ensures
        out@ == delete_all(s@, p@),
{
    let pieces = split_on(s, p);
    let ghost ps = pieces.deep_view();
    let mut out = String::new();
    let mut i: usize = 0;
    while i < pieces.len()
        invariant
            ps == pieces.deep_view(),
            ps == split_by(s@, p@),
            0 <= i <= pieces@.len(),
            out@ == concat_all(ps.take(i as int)),
        decreases pieces@.len() - i,
    {
        out.append(pieces[i]);
        assert(ps[i as int] == pieces@[i as int]@);
        assert(ps.take(i + 1).drop_last() =~= ps.take(i as int));
        i = i + 1;
    }
    assert(ps.take(pieces@.len() as int) =~= ps);
    out
}

/// `s` with every occurrence of the character `c` removed.
pub fn delete_char(s: &str, c: char) -> (out: String)
    ensures
        out@ == without_char(s@, c),
{
    let v = chars_of(s);
    let mut out = String::new();
    let mut i: usize = 0;
    while i < v.len()
        invariant
            v@ == s@,
            0 <= i <= v@.len(),
            out@ == without_char(v@.take(i as int), c),
        decreases v@.len() - i,
    {
        assert(v@.take(i + 1).drop_last() =~= v@.take(i as int));
        if v[i] != c {
            push_char(&mut out, v[i]);
        }
        i = i + 1;
    }
    assert(v@.take(v@.len() as int) =~= v@);
    out
}

} // verus!

verus! {

/// The pieces joined with the separator `c` between neighbours.
pub open spec fn join_with(ps: Seq<Seq<char>>, c: char) -> Seq<char>
    decreases ps.len(),
{
    if ps.len() <= 1 {
        if ps.len() == 1 {
            ps[0]
        } else {
            Seq::empty()
        }
    } else {
        ps[0] + seq![c] + join_with(ps.skip(1), c)
    }
}

/// Scanning over characters other than the separator changes nothing.
proof fn lemma_scan_skip(s: Seq<char>, c: char, start: int, i: int, j: int)
    requires
        0 <= start <= i <= j <= s.len(),
        forall|k: int| i <= k < j ==> s[k] != c,
    ensures
        split_scan(s, seq![c], start, i) == split_scan(s, seq![c], start, j),
    decreases j - i,
{
    if i < j {
        assert(!matches_at(s, seq![c], i)) by {
            if matches_at(s, seq![c], i) {
                assert(s.subrange(i, i + 1)[0] == s[i]);
            }
        }
        lemma_scan_skip(s, c, start, i + 1, j);
    }
}

/// Scanning a text that starts with `x` at positions past `x` is scanning
/// the rest.
proof fn lemma_scan_shift(x: Seq<char>, y: Seq<char>, c: char, a: int, i: int)
    requires
        0 <= a <= i <= y.len(),
    ensures
        split_scan(x + y, seq![c], x.len() + a, x.len() + i) == split_scan(y, seq![c], a, i),
    decreases y.len() - i,
{
    let s = x + y;
    let p = seq![c];
    if i + 1 > y.len() {
        assert(s.subrange(x.len() + a, s.len() as int) =~= y.subrange(a, y.len() as int));
    } else {
        assert(s.subrange(x.len() + i, x.len() + i + 1) =~= y.subrange(i, i + 1));
        if matches_at(y, p, i) {
            assert(s.subrange(x.len() + a, x.len() + i) =~= y.subrange(a, i));
            lemma_scan_shift(x, y, c, i + 1, i + 1);
        } else {
            lemma_scan_shift(x, y, c, a, i + 1);
        }
    }
}

/// Splitting pieces joined by a separator they do not contain gives the
/// pieces back.
pub proof fn lemma_split_join(ps: Seq<Seq<char>>, c: char)
    requires
        ps.len() >= 1,
        forall|i: int, k: int| 0 <= i < ps.len() && 0 <= k < ps[i].len() ==> ps[i][k] != c,
    ensures
        split_by(join_with(ps, c), seq![c]) == ps,
    decreases ps.len(),
{
    let s = join_with(ps, c);
    let p = seq![c];
    let first = ps[0];
    if ps.len() == 1 {
        lemma_scan_skip(s, c, 0, 0, s.len() as int);
        assert(s.subrange(0, s.len() as int) =~= s);
        assert(split_by(s, p) =~= ps);
    } else {
        let rest = ps.skip(1);
        let j = join_with(rest, c);
        let x = first + seq![c];
        assert(s =~= x + j);
        assert forall|k: int| 0 <= k < first.len() implies s[k] != c by {
            assert(s[k] == ps[0][k]);
        }
        lemma_scan_skip(s, c, 0, 0, first.len() as int);
        assert(s[first.len() as int] == c);
        assert(s.subrange(first.len() as int, first.len() as int + 1) =~= p);
        assert(s.subrange(0, first.len() as int) =~= first);
        assert forall|i: int, k: int| 0 <= i < rest.len() && 0 <= k < rest[i].len() implies rest[i][k]
            != c by {
            assert(rest[i] == ps[i + 1]);
        }
        lemma_split_join(rest, c);
        lemma_scan_shift(x, j, c, 0, 0);
        assert(split_by(s, p) =~= seq![first] + rest);
        assert(seq![first] + rest =~= ps);
    }
}

} // verus!

verus! {

/// A separator character that occurs in the text splits it in at least two
/// pieces.
pub proof fn lemma_split_contains(s: Seq<char>, c: char)
    requires
        contains_pat(s, seq![c]),
    ensures
        split_by(s, seq![c]).len() >= 2,
{
    let j = choose|j: int| matches_at(s, seq![c], j);
    lemma_scan_reaches(s, c, 0, 0, j);
}

/// Scanning from `i` towards a match at `j` yields at least two pieces.
proof fn lemma_scan_reaches(s: Seq<char>, c: char, start: int, i: int, j: int)
    requires
        0 <= start <= i <= j,
        matches_at(s, seq![c], j),
    ensures
        split_scan(s, seq![c], start, i).len() >= 2,
    decreases j - i,
{
    if matches_at(s, seq![c], i) {
        lemma_split_scan_nonempty(s, seq![c], i + 1, i + 1);
    } else {
        lemma_scan_reaches(s, c, start, i + 1, j);
    }
}

/// The decimal digits of `n`, most significant first.
pub open spec fn decimal(n: nat) -> Seq<char>
    decreases n,
{
    if n < 10 {
        seq![(48 + n) as char]
    } else {
        decimal(n / 10) + seq![(48 + n % 10) as char]
    }
}

/// The decimal digits of `n`.
pub fn decimal_string(n: usize) -> (s: String)
    ensures
        s@ == decimal(n as nat),
    decreases n,
{
    if n < 10 {
        let mut s = String::new();
        push_char(&mut s, ((n as u8) + 48) as char);
        assert(s@ =~= decimal(n as nat));
        s
    } else {
        let mut s = decimal_string(n / 10);
        push_char(&mut s, (((n % 10) as u8) + 48) as char);
        assert(s@ =~= decimal(n as nat));
        s
    }
}

} // verus!

verus! {

/// Scanning over positions where the separator does not occur changes
/// nothing.
proof fn lemma_scan_skip_pat(s: Seq<char>, p: Seq<char>, start: int, i: int, j: int)
    requires
        p.len() > 0,
        0 <= start <= i <= j,
        j + p.len() <= s.len(),
        forall|k: int| i <= k < j ==> !matches_at(s, p, k),
    ensures
        split_scan(s, p, start, i) == split_scan(s, p, start, j),
    decreases j - i,
{
    if i < j {
        lemma_scan_skip_pat(s, p, start, i + 1, j);
    }
}

/// With no separator from `i` on, the scan yields the rest as one piece.
proof fn lemma_scan_to_end(s: Seq<char>, p: Seq<char>, start: int, i: int)
    requires
        p.len() > 0,
        0 <= start <= i,
        forall|k: int| i <= k ==> !matches_at(s, p, k),
    ensures
        split_scan(s, p, start, i) == seq![s.subrange(start, s.len() as int)],
    decreases s.len() - i,
{
    if i + p.len() <= s.len() {
        lemma_scan_to_end(s, p, start, i + 1);
    }
}

/// Scanning a text that starts with `x` at positions past `x` is scanning
/// the rest.
proof fn lemma_scan_shift_pat(x: Seq<char>, y: Seq<char>, p: Seq<char>, a: int, i: int)
    requires
        p.len() > 0,
        0 <= a <= i <= y.len(),
    ensures
        split_scan(x + y, p, x.len() + a, x.len() + i) == split_scan(y, p, a, i),
    decreases y.len() - i,
{
    let s = x + y;
    if i + p.len() > y.len() {
        assert(s.subrange(x.len() + a, s.len() as int) =~= y.subrange(a, y.len() as int));
    } else {
        assert(s.subrange(x.len() + i, x.len() + i + p.len()) =~= y.subrange(i, i + p.len()));
        if matches_at(y, p, i) {
            assert(s.subrange(x.len() + a, x.len() + i) =~= y.subrange(a, i));
            lemma_scan_shift_pat(x, y, p, i + p.len(), i + p.len());
        } else {
            lemma_scan_shift_pat(x, y, p, a, i + 1);
        }
    }
}

/// A text that holds no separator is one piece.
pub proof fn lemma_split_none(s: Seq<char>, p: Seq<char>)
    requires
        p.len() > 0,
        !contains_pat(s, p),
    ensures
        split_by(s, p) == seq![s],
{
    lemma_scan_to_end(s, p, 0, 0);
    assert(s.subrange(0, s.len() as int) =~= s);
}

/// When the first occurrence of the separator starts right after `x`, the
/// first piece is `x` and the others are the pieces of what follows the
/// separator.
pub proof fn lemma_split_first(x: Seq<char>, p: Seq<char>, y: Seq<char>)
    requires
        p.len() > 0,
        forall|k: int| 0 <= k < x.len() ==> !matches_at(x + p + y, p, k),
    ensures
        split_by(x + p + y, p) == seq![x] + split_by(y, p),
{
    let s = x + p + y;
    lemma_scan_skip_pat(s, p, 0, 0, x.len() as int);
    assert(s.subrange(x.len() as int, (x.len() + p.len()) as int) =~= p);
    assert(s.subrange(0, x.len() as int) =~= x);
    assert(s =~= (x + p) + y);
    lemma_scan_shift_pat(x + p, y, p, 0, 0);
}

/// Deleting a character that does not occur changes nothing.
pub proof fn lemma_without_absent(s: Seq<char>, c: char)
    requires
        forall|k: int| 0 <= k < s.len() ==> s[k] != c,
    ensures
        without_char(s, c) == s,
    decreases s.len(),
{
    if s.len() > 0 {
        lemma_without_absent(s.drop_last(), c);
        assert(s.drop_last().push(s.last()) =~= s);
    }
}

/// A character that does not occur in `s` starts no match there.
pub proof fn lemma_no_start(s: Seq<char>, p: Seq<char>, k: int)
    requires
        p.len() > 0,
        0 <= k < s.len(),
        s[k] != p[0],
    ensures
        !matches_at(s, p, k),
{
    if matches_at(s, p, k) {
        assert(s.subrange(k, k + p.len())[0] == s[k]);
    }
}

} // verus!

verus! {

/// Every character of a decimal numeral is a digit.
pub proof fn lemma_decimal_digits(n: nat)
    ensures
        forall|k: int| 0 <= k < decimal(n).len() ==> is_digit(#[trigger] decimal(n)[k]),
    decreases n,
{
    if n >= 10 {
        lemma_decimal_digits(n / 10);
        assert forall|k: int| 0 <= k < decimal(n).len() implies is_digit(#[trigger] decimal(n)[k]) by {
            if k < decimal(n / 10).len() {
                assert(decimal(n)[k] == decimal(n / 10)[k]);
            }
        }
    }
}

/// A match in `x + y` of a pattern whose first character is not in `x` is
/// a match in `y`.
pub proof fn lemma_contains_suffix(x: Seq<char>, y: Seq<char>, p: Seq<char>)
    requires
        p.len() > 0,
        forall|k: int| 0 <= k < x.len() ==> x[k] != p[0],
        contains_pat(x + y, p),
    ensures
        contains_pat(y, p),
{
    let s = x + y;
    let k = choose|k: int| matches_at(s, p, k);
    assert(s.subrange(k, k + p.len())[0] == s[k]);
    assert(k >= x.len());
    assert(y.subrange(k - x.len(), k - x.len() + p.len()) =~= s.subrange(k, k + p.len()));
    assert(matches_at(y, p, k - x.len()));
}

} // verus!
