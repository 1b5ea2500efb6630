//! Character-level helpers on strings: substring search, trimming,
//! whitespace splitting, decimal formatting and lowercasing.

use vstd::prelude::*;
use vstd::string::*;

verus! {

/// The view of each string of a sequence.
pub open spec fn views(v: Seq<String>) -> Seq<Seq<char>> {
    Seq::new(v.len(), |i: int| v[i]@)
}

/// Name for what `str::to_lowercase` returns: the Unicode lowercase
/// mapping of the whole string.
pub uninterp spec fn lowercase(s: Seq<char>) -> Seq<char>;

/// The Unicode `White_Space` property: tab, line feed, vertical tab, form
/// feed, carriage return, space, next line, no-break space, ogham space mark,
/// the eleven spaces from en quad to hair space, line separator, paragraph
/// separator, narrow no-break space, medium mathematical space and
/// ideographic space.
pub open spec fn white_space(c: char) -> bool {
    let u = c as u32;
    ||| 0x09 <= u <= 0x0D
    ||| u == 0x20
    ||| u == 0x85
    ||| u == 0xA0
    ||| u == 0x1680
    ||| 0x2000 <= u <= 0x200A
    ||| u == 0x2028
    ||| u == 0x2029
    ||| u == 0x202F
    ||| u == 0x205F
    ||| u == 0x3000
}

/// Every character of `s` is ASCII.
pub open spec fn all_ascii(s: Seq<char>) -> bool {
    forall|i: int| 0 <= i < s.len() ==> (s[i] as u32) < 128
}

/// Calls `str::to_lowercase`, whose result is named `lowercase`.
#[verifier::external_body]
pub(crate) fn to_lowercase(s: &str) -> (res: String)
    ensures
        res@ == lowercase(s@),
{
    s.to_lowercase()
}

/// Whether a character has the `White_Space` property, as
/// `char::is_whitespace` decides it.
pub fn is_whitespace(c: char) -> (res: bool)
    ensures
        res == white_space(c),
{
    let u = c as u32;
    (0x09 <= u && u <= 0x0D) || u == 0x20 || u == 0x85 || u == 0xA0 || u == 0x1680
        || (0x2000 <= u && u <= 0x200A) || u == 0x2028 || u == 0x2029 || u == 0x202F
        || u == 0x205F || u == 0x3000
}

/// Calls `String::push`, which appends one character.
#[verifier::external_body]
pub(crate) fn push_char(s: &mut String, c: char)
    ensures
        final(s)@ == old(s)@.push(c),
{
    s.push(c)
}

/// The characters of a string, in order.
pub fn chars_of(s: &str) -> (v: Vec<char>)
    ensures
        v@ == s@,
{
    let mut v: Vec<char> = Vec::new();
    for c in it: s.chars()
        invariant
            v@ == it.seq().take(it.index() as int),
            it.seq() == s@,
        ensures
            v@ == s@,
    {
        v.push(c);
    }
    v
}

/// A string made of the given characters.
pub fn string_of(v: &Vec<char>) -> (s: String)
    ensures
        s@ == v@,
{
    let mut s = String::new();
    let mut i: usize = 0;
    while i < v.len()
        invariant
            i <= v.len(),
            s@ == v@.take(i as int),
        decreases v.len() - i,
    {
        push_char(&mut s, v[i]);
        i = i + 1;
        assert(s@ =~= v@.take(i as int));
    }
    assert(v@.take(v.len() as int) =~= v@);
    s
}

/// A copy of a string slice.
pub fn owned(s: &str) -> (r: String)
    ensures
        r@ == s@,
{
    s.to_owned()
}

/// The concatenation of two strings.
pub fn concat(a: &str, b: &str) -> (r: String)
    ensures
        r@ == a@ + b@,
{
    let mut r = a.to_owned();
    r.append(b);
    r
}

/// `p` occurs in `s` at position `i`.
pub open spec fn occurs_at(s: Seq<char>, p: Seq<char>, i: int) -> bool {
    0 <= i && i + p.len() <= s.len() && s.subrange(i, i + p.len()) == p
}

/// `p` occurs somewhere in `s` (the empty string occurs in every string).
pub open spec fn has_substring(s: Seq<char>, p: Seq<char>) -> bool {
    exists|i: int| occurs_at(s, p, i)
}

fn matches_at(s: &Vec<char>, p: &Vec<char>, i: usize) -> (b: bool)
    requires
        i + p.len() <= s.len(),
    ensures
        b == occurs_at(s@, p@, i as int),
{
    let mut j: usize = 0;
    while j < p.len()
        invariant
            i + p.len() <= s.len(),
            j <= p.len(),
            forall|k: int| 0 <= k < j ==> s@[i + k] == p@[k],
        decreases p.len() - j,
    {
        if s[i + j] != p[j] {
            assert(s@.subrange(i as int, i + p.len())[j as int] != p@[j as int]);
            return false;
        }
        j = j + 1;
    }
    assert(s@.subrange(i as int, i + p.len()) =~= p@);
    true
}

/// Whether `p` occurs in `s`, as `str::contains` with a string pattern.
pub fn contains_str(s: &str, p: &str) -> (b: bool)
    ensures
        b == has_substring(s@, p@),
{
    let sv = chars_of(s);
    let pv = chars_of(p);
    if pv.len() > sv.len() {
        assert forall|i: int| !occurs_at(s@, p@, i) by {}
        return false;
    }
    let last = sv.len() - pv.len();
    let mut i: usize = 0;
    loop
        invariant
            sv@ == s@,
            pv@ == p@,
            last == sv.len() - pv.len(),
            i <= last,
            forall|k: int| 0 <= k < i ==> !occurs_at(s@, p@, k),
        ensures
            forall|k: int| 0 <= k <= last ==> !occurs_at(s@, p@, k),
        decreases last - i,
    {
        if matches_at(&sv, &pv, i) {
            return true;
        }
        if i == last {
            break;
        }
        i = i + 1;
    }
    assert forall|k: int| !occurs_at(s@, p@, k) by {
        if 0 <= k && k + p@.len() <= s@.len() {
            assert(k <= last);
        }
    }
    false
}

/// The pieces of `s` between separator characters, as a split on a
/// one-character pattern gives them: empty pieces included, one more piece
/// than there are separators.
pub open spec fn split_by(s: Seq<char>, sep: spec_fn(char) -> bool) -> Seq<Seq<char>>
    decreases s.len(),
{
    if s.len() == 0 {
        seq![Seq::empty()]
    } else {
        let init = split_by(s.drop_last(), sep);
        if sep(s.last()) {
            init.push(Seq::empty())
        } else {
            init.update(init.len() - 1, init.last().push(s.last()))
        }
    }
}

/// The non-empty members of a sequence of pieces, in order.
pub open spec fn drop_empty(p: Seq<Seq<char>>) -> Seq<Seq<char>>
    decreases p.len(),
{
    if p.len() == 0 {
        Seq::empty()
    } else {
        let r = drop_empty(p.drop_last());
        if p.last().len() == 0 {
            r
        } else {
            r.push(p.last())
        }
    }
}

/// Splitting always yields at least one piece.
pub proof fn lemma_split_by_nonempty(s: Seq<char>, sep: spec_fn(char) -> bool)
    ensures
        split_by(s, sep).len() >= 1,
    decreases s.len(),
{
    if s.len() > 0 {
        lemma_split_by_nonempty(s.drop_last(), sep);
    }
}

/// The `White_Space` property as a separator predicate.
pub open spec fn white_space_sep() -> spec_fn(char) -> bool {
    |c: char| white_space(c)
}

/// The whitespace-separated words of `s`, as `str::split_whitespace` yields them.
pub open spec fn words(s: Seq<char>) -> Seq<Seq<char>> {
    drop_empty(split_by(s, white_space_sep()))
}

/// `s` without its leading `White_Space` characters.
pub open spec fn trim_start(s: Seq<char>) -> Seq<char>
    decreases s.len(),
{
    if s.len() > 0 && white_space(s[0]) {
        trim_start(s.drop_first())
    } else {
        s
    }
}

/// `s` without its trailing `White_Space` characters.
pub open spec fn trim_end(s: Seq<char>) -> Seq<char>
    decreases s.len(),
{
    if s.len() > 0 && white_space(s.last()) {
        trim_end(s.drop_last())
    } else {
        s
    }
}

/// `s` without leading and trailing `White_Space`, as `str::trim` gives it.
pub open spec fn trimmed(s: Seq<char>) -> Seq<char> {
    trim_end(trim_start(s))
}

/// A string made of the characters `v[from..to]`.
pub fn string_of_range(v: &Vec<char>, from: usize, to: usize) -> (s: String)
    requires
        from <= to <= v.len(),
    ensures
        s@ == v@.subrange(from as int, to as int),
{
    let mut s = String::new();
    let mut i: usize = from;
    while i < to
        invariant
            from <= i <= to <= v.len(),
            s@ == v@.subrange(from as int, i as int),
        decreases to - i,
    {
        push_char(&mut s, v[i]);
        i = i + 1;
        assert(s@ =~= v@.subrange(from as int, i as int));
    }
    s
}

/// The string without leading and trailing whitespace (`str::trim`).
pub fn trim(s: &str) -> (r: String)
    ensures
        r@ == trimmed(s@),
{
    let cs = chars_of(s);
    let n = cs.len();
    let mut a: usize = 0;
    assert(s@.subrange(0, n as int) =~= s@);
    while a < n && is_whitespace(cs[a])
        invariant
            cs@ == s@,
            n == cs.len(),
            a <= n,
            trim_start(s@) == trim_start(s@.subrange(a as int, n as int)),
        decreases n - a,
    {
        proof {
            let t = s@.subrange(a as int, n as int);
            assert(t.drop_first() =~= s@.subrange(a + 1, n as int));
        }
        a = a + 1;
    }
    proof {
        let t = s@.subrange(a as int, n as int);
        assert(trim_start(t) == t);
    }
    let mut b: usize = n;
    while b > a && is_whitespace(cs[b - 1])
        invariant
            cs@ == s@,
            n == cs.len(),
            a <= b <= n,
            trim_end(s@.subrange(a as int, n as int)) == trim_end(s@.subrange(a as int, b as int)),
        decreases b - a,
    {
        proof {
            let t = s@.subrange(a as int, b as int);
            assert(t.drop_last() =~= s@.subrange(a as int, b - 1));
        }
        b = b - 1;
    }
    string_of_range(&cs, a, b)
}

/// The whitespace-separated words of a string (`str::split_whitespace`).
pub fn split_whitespace(s: &str) -> (ws: Vec<String>)
    ensures
        views(ws@) == words(s@),
{
    let cs = chars_of(s);
    let ghost sep = white_space_sep();
    let mut ws: Vec<String> = Vec::new();
    let mut cur: Vec<char> = Vec::new();
    let mut i: usize = 0;
    proof {
        assert(s@.take(0) =~= Seq::<char>::empty());
        assert(views(ws@) =~= drop_empty(split_by(s@.take(0), sep).drop_last()));
    }
    while i < cs.len()
        invariant
            cs@ == s@,
            sep == white_space_sep(),
            i <= cs.len(),
            split_by(s@.take(i as int), sep).last() == cur@,
            views(ws@) == drop_empty(split_by(s@.take(i as int), sep).drop_last()),
        decreases cs.len() - i,
    {
        let c = cs[i];
        let ghost prev = split_by(s@.take(i as int), sep);
        proof {
            lemma_split_by_nonempty(s@.take(i as int), sep);
            assert(s@.take(i + 1).drop_last() =~= s@.take(i as int));
            assert(s@.take(i + 1).last() == c);
        }
        if is_whitespace(c) {
            if cur.len() > 0 {
                let w = string_of(&cur);
                ws.push(w);
            }
            proof {
                let next = split_by(s@.take(i + 1), sep);
                assert(next =~= prev.push(Seq::empty()));
                assert(next.drop_last() =~= prev);
                assert(prev =~= prev.drop_last().push(prev.last()));
                assert(views(ws@) =~= drop_empty(prev));
            }
            cur = Vec::new();
        } else {
            cur.push(c);
            proof {
                let next = split_by(s@.take(i + 1), sep);
                assert(next.drop_last() =~= prev.drop_last());
            }
        }
        i = i + 1;
    }
    proof {
        assert(s@.take(cs.len() as int) =~= s@);
        let all = split_by(s@, sep);
        lemma_split_by_nonempty(s@, sep);
        assert(all =~= all.drop_last().push(all.last()));
    }
    if cur.len() > 0 {
        let w = string_of(&cur);
        ws.push(w);
    }
    proof {
        assert(views(ws@) =~= words(s@));
    }
    ws
}

/// The decimal digit character for `d < 10`.
pub open spec fn digit_char(d: nat) -> char {
    ((48 + d) as u8) as char
}

/// The decimal representation of `n`, without leading zeros.
pub open spec fn decimal(n: nat) -> Seq<char>
    decreases n,
{
    if n < 10 {
        seq![digit_char(n)]
    } else {
        decimal(n / 10).push(digit_char(n % 10))
    }
}

/// The decimal representation of a number, as `{}` formats it.
pub fn decimal_string(n: u64) -> (s: String)
    ensures
        s@ == decimal(n as nat),
    decreases n,
{
    let d = (n % 10) as u8;
    let c = (48u8 + d) as char;
    if n < 10 {
        let mut s = String::new();
        push_char(&mut s, c);
        assert(s@ =~= decimal(n as nat));
        s
    } else {
        let mut s = decimal_string(n / 10);
        push_char(&mut s, c);
        s
    }
}

/// Whether a list of strings holds a string.
pub fn contains_string(v: &Vec<String>, s: &String) -> (b: bool)
    ensures
        b == views(v@).contains(s@),
{
    let mut i: usize = 0;
    while i < v.len()
        invariant
            i <= v.len(),
            forall|k: int| 0 <= k < i ==> v@[k]@ != s@,
        decreases v.len() - i,
    {
        if v[i] == *s {
            assert(views(v@)[i as int] == s@);
            return true;
        }
        i = i + 1;
    }
    false
}


/// Where piece `i` starts when the pieces are written one after the other,
/// each followed by `sep_len` characters of separator.
pub open spec fn piece_start(ps: Seq<Seq<char>>, sep_len: int, i: int) -> int
    decreases i,
{
    if i <= 0 {
        0
    } else {
        piece_start(ps, sep_len, i - 1) + ps[i - 1].len() + sep_len
    }
}

/// `s` is the pieces in order with `sep` between each two consecutive ones
/// and nothing else: its length is the sum of theirs plus one separator per
/// gap, each piece stands at its place, and each gap holds the separator.
pub open spec fn separated_by(s: Seq<char>, ps: Seq<Seq<char>>, sep: Seq<char>) -> bool {
    &&& s.len() == (if ps.len() == 0 { 0 } else { piece_start(ps, sep.len() as int, ps.len() as int) - sep.len() })
    &&& forall|i: int| 0 <= i < ps.len() ==> s.subrange(
        piece_start(ps, sep.len() as int, i),
        piece_start(ps, sep.len() as int, i) + ps[i].len(),
    ) == #[trigger] ps[i]
    &&& forall|i: int| 0 < i < ps.len() ==> s.subrange(
        #[trigger] piece_start(ps, sep.len() as int, i) - sep.len(),
        piece_start(ps, sep.len() as int, i),
    ) == sep
}

proof fn lemma_piece_start_push(ps: Seq<Seq<char>>, l: int, x: Seq<char>, i: int)
    requires
        0 <= i <= ps.len(),
    ensures
        piece_start(ps.push(x), l, i) == piece_start(ps, l, i),
    decreases i,
{
    if i > 0 {
        lemma_piece_start_push(ps, l, x, i - 1);
        assert(ps.push(x)[i - 1] == ps[i - 1]);
    }
}

proof fn lemma_piece_start_nonneg(ps: Seq<Seq<char>>, l: int, i: int)
    requires
        l >= 0,
    ensures
        piece_start(ps, l, i) >= 0,
    decreases i,
{
    if i > 0 {
        lemma_piece_start_nonneg(ps, l, i - 1);
    }
}

proof fn lemma_piece_start_mono(ps: Seq<Seq<char>>, l: int, i: int, j: int)
    requires
        l >= 0,
        0 <= i < j <= ps.len(),
    ensures
        piece_start(ps, l, i) + ps[i].len() + l <= piece_start(ps, l, j),
    decreases j - i,
{
    if i + 1 < j {
        lemma_piece_start_mono(ps, l, i + 1, j);
    }
}

/// One piece alone is written as it is.
pub proof fn lemma_separated_single(x: Seq<char>, sep: Seq<char>)
    ensures
        separated_by(x, seq![x], sep),
{
    let l = sep.len() as int;
    assert(piece_start(seq![x], l, 0) == 0);
    assert(piece_start(seq![x], l, 1) == x.len() + l);
    assert(x.subrange(0, x.len() as int) =~= x);
}

proof fn lemma_prefix_subrange(s: Seq<char>, rest: Seq<char>, a: int, b: int)
    requires
        0 <= a <= b <= s.len(),
    ensures
        (s + rest).subrange(a, b) == s.subrange(a, b),
{
    assert((s + rest).subrange(a, b) =~= s.subrange(a, b));
}

proof fn lemma_push_piece(s: Seq<char>, ps: Seq<Seq<char>>, sep: Seq<char>, x: Seq<char>, i: int)
    requires
        separated_by(s, ps, sep),
        ps.len() > 0,
        0 <= i <= ps.len(),
    ensures
        (s + sep + x).subrange(
            piece_start(ps.push(x), sep.len() as int, i),
            piece_start(ps.push(x), sep.len() as int, i) + ps.push(x)[i].len(),
        ) == ps.push(x)[i],
{
    let l = sep.len() as int;
    let n = ps.len() as int;
    lemma_piece_start_push(ps, l, x, i);
    lemma_piece_start_nonneg(ps, l, i);
    if i < n {
        lemma_piece_start_mono(ps, l, i, n);
        let a = piece_start(ps, l, i);
        let b = a + ps[i].len();
        assert(s.subrange(a, b) == ps[i]);
        lemma_prefix_subrange(s, sep + x, a, b);
        assert(s + sep + x =~= s + (sep + x));
    } else {
        let a = piece_start(ps, l, n);
        assert((s + sep + x).subrange(a, a + x.len()) =~= x);
    }
}

proof fn lemma_push_gap(s: Seq<char>, ps: Seq<Seq<char>>, sep: Seq<char>, x: Seq<char>, i: int)
    requires
        separated_by(s, ps, sep),
        ps.len() > 0,
        0 < i <= ps.len(),
    ensures
        (s + sep + x).subrange(
            piece_start(ps.push(x), sep.len() as int, i) - sep.len(),
            piece_start(ps.push(x), sep.len() as int, i),
        ) == sep,
{
    let l = sep.len() as int;
    let n = ps.len() as int;
    lemma_piece_start_push(ps, l, x, i);
    let b = piece_start(ps, l, i);
    lemma_piece_start_nonneg(ps, l, i - 1);
    assert(b == piece_start(ps, l, i - 1) + ps[i - 1].len() + l);
    if i < n {
        lemma_piece_start_mono(ps, l, i, n);
        assert(s.subrange(b - l, b) == sep);
        lemma_prefix_subrange(s, sep + x, b - l, b);
        assert(s + sep + x =~= s + (sep + x));
    } else {
        assert((s + sep + x).subrange(b - l, b) =~= sep);
    }
}

/// Appending a separator and one more piece to a laid-out text lays out the
/// longer list.
pub proof fn lemma_separated_push(s: Seq<char>, ps: Seq<Seq<char>>, sep: Seq<char>, x: Seq<char>)
    requires
        separated_by(s, ps, sep),
        ps.len() > 0,
    ensures
        separated_by(s + sep + x, ps.push(x), sep),
{
    let l = sep.len() as int;
    let n = ps.len() as int;
    let qs = ps.push(x);
    let t = s + sep + x;
    lemma_piece_start_push(ps, l, x, n);
    assert(qs[n] == x);
    assert(piece_start(qs, l, n + 1) == piece_start(qs, l, n) + x.len() + l);
    assert forall|i: int| 0 <= i < qs.len() implies t.subrange(
        piece_start(qs, l, i),
        piece_start(qs, l, i) + qs[i].len(),
    ) == #[trigger] qs[i] by {
        lemma_push_piece(s, ps, sep, x, i);
    }
    assert forall|i: int| 0 < i < qs.len() implies t.subrange(
        #[trigger] piece_start(qs, l, i) - l,
        piece_start(qs, l, i),
    ) == sep by {
        lemma_push_gap(s, ps, sep, x, i);
    }
}

/// The non-empty pieces of a list are exactly those that the list keeps
/// when filtered by non-emptiness, in order.
pub proof fn drop_empty_keeps_nonempty(p: Seq<Seq<char>>)
    ensures
        drop_empty(p) == p.filter(|x: Seq<char>| x.len() > 0),
    decreases p.len(),
{
    reveal_with_fuel(Seq::filter, 1);
    if p.len() > 0 {
        drop_empty_keeps_nonempty(p.drop_last());
    }
}


/// The number that a string of decimal digits stands for.
pub open spec fn digits_value(s: Seq<char>) -> int
    decreases s.len(),
{
    if s.len() == 0 {
        0
    } else {
        digits_value(s.drop_last()) * 10 + ((s.last() as u32) - 48)
    }
}

/// The decimal representation of a number is made of digits, has no leading
/// zero, and reads back as the number.
pub proof fn decimal_reads_back(n: nat)
    ensures
        decimal(n).len() >= 1,
        forall|i: int| 0 <= i < decimal(n).len() ==> '0' <= #[trigger] decimal(n)[i] <= '9',
        decimal(n).len() > 1 ==> decimal(n)[0] != '0',
        digits_value(decimal(n)) == n,
    decreases n,
{
    let d = n % 10;
    assert((digit_char(d) as u32) == 48 + d);
    if n >= 10 {
        decimal_reads_back(n / 10);
        let p = decimal(n / 10);
        assert(decimal(n) == p.push(digit_char(d)));
        assert(decimal(n).drop_last() =~= p);
        assert forall|i: int| 0 <= i < decimal(n).len() implies '0' <= #[trigger] decimal(n)[i] <= '9' by {
            if i < p.len() {
                assert(decimal(n)[i] == p[i]);
            }
        }
        if p.len() == 1 {
            assert(n / 10 >= 1);
            assert(digits_value(p) == n / 10);
            assert(p.drop_last().len() == 0);
            assert(digits_value(p.drop_last()) == 0);
            assert(p.last() == p[0]);
            assert((p[0] as u32) >= 49);
            assert(p[0] != '0');
        }
        assert(decimal(n)[0] == p[0]);
        assert(n == (n / 10) * 10 + n % 10) by (nonlinear_arith);
        assert(decimal(n).last() == digit_char(d));
        assert(digits_value(decimal(n)) == digits_value(p) * 10 + ((digit_char(d) as u32) - 48));
    } else {
        assert(decimal(n) == seq![digit_char(n)]);
        assert(decimal(n).drop_last().len() == 0);
        assert(digits_value(decimal(n).drop_last()) == 0);
        assert(decimal(n).last() == digit_char(n));
        assert(d == n);
    }
}


/// `ps` are the pieces of `s` between the characters for which `sep` holds:
/// no piece holds such a character, and `s` is the pieces in order with
/// exactly one such character between each two.
pub open spec fn cut_at(s: Seq<char>, ps: Seq<Seq<char>>, sep: spec_fn(char) -> bool) -> bool {
    &&& ps.len() >= 1
    &&& s.len() == piece_start(ps, 1, ps.len() as int) - 1
    &&& forall|i: int| 0 <= i < ps.len() ==> s.subrange(piece_start(ps, 1, i), piece_start(ps, 1, i) + ps[i].len()) == #[trigger] ps[i]
    &&& forall|i: int| 0 < i < ps.len() ==> sep(s[#[trigger] piece_start(ps, 1, i) - 1])
    &&& forall|i: int, j: int| 0 <= i < ps.len() && 0 <= j < ps[i].len() ==> !sep(#[trigger] ps[i][j])
}

proof fn lemma_piece_start_update(ps: Seq<Seq<char>>, l: int, k: int, x: Seq<char>, i: int)
    requires
        0 <= i <= k < ps.len(),
    ensures
        piece_start(ps.update(k, x), l, i) == piece_start(ps, l, i),
    decreases i,
{
    if i > 0 {
        lemma_piece_start_update(ps, l, k, x, i - 1);
        assert(ps.update(k, x)[i - 1] == ps[i - 1]);
    }
}

#[verifier::rlimit(40)]
proof fn lemma_cut_push_sep(s: Seq<char>, ps: Seq<Seq<char>>, sep: spec_fn(char) -> bool, c: char)
    requires
        cut_at(s, ps, sep),
        sep(c),
    ensures
        cut_at(s.push(c), ps.push(Seq::empty()), sep),
{
    let n = ps.len() as int;
    let qs = ps.push(Seq::<char>::empty());
    let t = s.push(c);
    lemma_piece_start_push(ps, 1, Seq::empty(), n);
    assert(qs[n] == Seq::<char>::empty());
    assert(piece_start(qs, 1, n + 1) == piece_start(ps, 1, n) + 1);
    assert forall|i: int| 0 <= i < qs.len() implies t.subrange(piece_start(qs, 1, i), piece_start(qs, 1, i) + qs[i].len()) == #[trigger] qs[i] by {
        lemma_piece_start_push(ps, 1, Seq::empty(), i);
        lemma_piece_start_nonneg(ps, 1, i);
        if i < n {
            lemma_piece_start_mono(ps, 1, i, n);
            assert(qs[i] == ps[i]);
            assert(t.subrange(piece_start(ps, 1, i), piece_start(ps, 1, i) + ps[i].len())
                =~= s.subrange(piece_start(ps, 1, i), piece_start(ps, 1, i) + ps[i].len()));
        } else {
            assert(t.subrange(piece_start(qs, 1, i), piece_start(qs, 1, i)) =~= Seq::<char>::empty());
        }
    }
    assert forall|i: int| 0 < i < qs.len() implies sep(t[#[trigger] piece_start(qs, 1, i) - 1]) by {
        lemma_piece_start_push(ps, 1, Seq::empty(), i);
        if i < n {
            lemma_piece_start_mono(ps, 1, i, n);
            lemma_piece_start_nonneg(ps, 1, i - 1);
            assert(sep(s[piece_start(ps, 1, i) - 1]));
            assert(t[piece_start(ps, 1, i) - 1] == s[piece_start(ps, 1, i) - 1]);
        }
    }
    assert forall|i: int, j: int| 0 <= i < qs.len() && 0 <= j < qs[i].len() implies !sep(#[trigger] qs[i][j]) by {
        if i < n {
            assert(qs[i] == ps[i]);
        }
    }
}

#[verifier::rlimit(40)]
proof fn lemma_cut_push_char(s: Seq<char>, ps: Seq<Seq<char>>, sep: spec_fn(char) -> bool, c: char)
    requires
        cut_at(s, ps, sep),
        !sep(c),
    ensures
        cut_at(s.push(c), ps.update(ps.len() - 1, ps.last().push(c)), sep),
{
    let n = ps.len() as int;
    let m = n - 1;
    let x = ps.last().push(c);
    let qs = ps.update(m, x);
    let t = s.push(c);
    lemma_piece_start_update(ps, 1, m, x, m);
    lemma_piece_start_nonneg(ps, 1, m);
    assert(qs[m] == x);
    assert(ps[m] == ps.last());
    assert(piece_start(qs, 1, n) == piece_start(qs, 1, m) + x.len() + 1);
    assert(piece_start(ps, 1, n) == piece_start(ps, 1, m) + ps[m].len() + 1);
    assert forall|i: int| 0 <= i < qs.len() implies t.subrange(piece_start(qs, 1, i), piece_start(qs, 1, i) + qs[i].len()) == #[trigger] qs[i] by {
        lemma_piece_start_update(ps, 1, m, x, i);
        lemma_piece_start_nonneg(ps, 1, i);
        if i < m {
            lemma_piece_start_mono(ps, 1, i, n);
            assert(qs[i] == ps[i]);
            assert(t.subrange(piece_start(ps, 1, i), piece_start(ps, 1, i) + ps[i].len())
                =~= s.subrange(piece_start(ps, 1, i), piece_start(ps, 1, i) + ps[i].len()));
        } else {
            let a = piece_start(ps, 1, m);
            assert(s.subrange(a, a + ps[m].len()) == ps[m]);
            assert(t.subrange(a, a + x.len()) =~= s.subrange(a, a + ps[m].len()).push(c));
        }
    }
    assert forall|i: int| 0 < i < qs.len() implies sep(t[#[trigger] piece_start(qs, 1, i) - 1]) by {
        lemma_piece_start_update(ps, 1, m, x, i);
        lemma_piece_start_mono(ps, 1, i, n);
        lemma_piece_start_nonneg(ps, 1, i - 1);
        assert(sep(s[piece_start(ps, 1, i) - 1]));
        assert(t[piece_start(ps, 1, i) - 1] == s[piece_start(ps, 1, i) - 1]);
    }
    assert forall|i: int, j: int| 0 <= i < qs.len() && 0 <= j < qs[i].len() implies !sep(#[trigger] qs[i][j]) by {
        if i < m {
            assert(qs[i] == ps[i]);
        } else if j < ps[m].len() {
            assert(qs[i][j] == ps[m][j]);
        } else {
            assert(qs[i][j] == c);
        }
    }
}

/// The pieces that a split gives are the stretches of the text between the
/// separator characters: none holds a separator, and the text is the pieces
/// with one separator character between each two.
pub proof fn split_by_cuts_at_separators(s: Seq<char>, sep: spec_fn(char) -> bool)
    ensures
        cut_at(s, split_by(s, sep), sep),
    decreases s.len(),
{
    if s.len() == 0 {
        let ps = split_by(s, sep);
        assert(ps =~= seq![Seq::<char>::empty()]);
        assert(piece_start(ps, 1, 0) == 0);
        assert(piece_start(ps, 1, 1) == 1);
        assert(s.subrange(0, 0) =~= ps[0]);
    } else {
        split_by_cuts_at_separators(s.drop_last(), sep);
        assert(s.drop_last().push(s.last()) =~= s);
        if sep(s.last()) {
            lemma_cut_push_sep(s.drop_last(), split_by(s.drop_last(), sep), sep, s.last());
        } else {
            lemma_cut_push_char(s.drop_last(), split_by(s.drop_last(), sep), sep, s.last());
        }
    }
}

} // verus!
