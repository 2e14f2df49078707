//! Character-level text helpers: splitting, trimming, decimal numbers and
//! the `true`/`false` words, each with the mathematical meaning it has in
//! the settings formats.
use vstd::prelude::*;

verus! {

// ---------------------------------------------------------------------
// Specifications
// ---------------------------------------------------------------------

/// The pieces of `s` between occurrences of `sep`, in order.  There is
/// always at least one piece, and the empty text gives one empty piece.
pub open spec fn split_on(s: Seq<char>, sep: char) -> Seq<Seq<char>>
    decreases s.len(),
{
    if s.len() == 0 {
        seq![Seq::<char>::empty()]
    } else {
        let init = split_on(s.drop_last(), sep);
        if s.last() == sep {
            init.push(Seq::<char>::empty())
        } else {
            init.update(init.len() - 1, init.last().push(s.last()))
        }
    }
}

/// The pieces joined back together with `sep` between neighbours.
pub open spec fn join_with(pieces: Seq<Seq<char>>, sep: char) -> Seq<char>
    decreases pieces.len(),
{
    if pieces.len() == 0 {
        Seq::<char>::empty()
    } else if pieces.len() == 1 {
        pieces[0]
    } else {
        join_with(pieces.drop_last(), sep).push(sep) + pieces.last()
    }
}

/// Unicode `White_Space` characters.
pub open spec fn is_whitespace(c: char) -> bool {
    ||| '\u{9}' <= c <= '\u{d}'
    ||| c == ' '
    ||| c == '\u{85}'
    ||| c == '\u{a0}'
    ||| c == '\u{1680}'
    ||| '\u{2000}' <= c <= '\u{200a}'
    ||| c == '\u{2028}'
    ||| c == '\u{2029}'
    ||| c == '\u{202f}'
    ||| c == '\u{205f}'
    ||| c == '\u{3000}'
}

pub open spec fn trim_start(s: Seq<char>) -> Seq<char>
    decreases s.len(),
{
    if s.len() > 0 && is_whitespace(s[0]) {
        trim_start(s.drop_first())
    } else {
        s
    }
}

pub open spec fn trim_end(s: Seq<char>) -> Seq<char>
    decreases s.len(),
{
    if s.len() > 0 && is_whitespace(s.last()) {
        trim_end(s.drop_last())
    } else {
        s
    }
}

/// `s` without its leading and trailing whitespace.
pub open spec fn trim(s: Seq<char>) -> Seq<char> {
    trim_end(trim_start(s))
}

/// Position of the first `c` in `s`.
pub open spec fn index_of(s: Seq<char>, c: char) -> Option<nat>
    decreases s.len(),
{
    if s.len() == 0 {
        None
    } else if s[0] == c {
        Some(0)
    } else {
        match index_of(s.drop_first(), c) {
            Some(i) => Some(i + 1),
            None => None,
        }
    }
}

pub open spec fn is_digit(c: char) -> bool {
    '0' <= c <= '9'
}

pub open spec fn digit_value(c: char) -> nat {
    (c as int - '0' as int) as nat
}

pub open spec fn digit_char(d: nat) -> char {
    (d + '0' as int) as char
}

/// The usual decimal writing of `n`, without leading zeros.
pub open spec fn decimal(n: nat) -> Seq<char>
    decreases n,
{
    if n < 10 {
        seq![digit_char(n)]
    } else {
        decimal(n / 10).push(digit_char(n % 10))
    }
}

/// `n` written with at least two digits (a leading zero below ten).
pub open spec fn pad2(n: nat) -> Seq<char> {
    if n < 10 {
        seq!['0'].add(decimal(n))
    } else {
        decimal(n)
    }
}

pub open spec fn all_digits(s: Seq<char>) -> bool {
    forall|i: int| 0 <= i < s.len() ==> is_digit(#[trigger] s[i])
}

/// The number that a run of decimal digits denotes.
pub open spec fn digits_value(s: Seq<char>) -> nat
    decreases s.len(),
{
    if s.len() == 0 {
        0
    } else {
        digits_value(s.drop_last()) * 10 + digit_value(s.last())
    }
}

/// What reading `s` as a `u32` gives: an optional `+`, then one or more
/// decimal digits whose value fits in `u32`.
pub open spec fn parse_u32_spec(s: Seq<char>) -> Option<u32> {
    let d = if s.len() > 0 && s[0] == '+' { s.drop_first() } else { s };
    if d.len() > 0 && all_digits(d) && digits_value(d) <= u32::MAX {
        Some(digits_value(d) as u32)
    } else {
        None
    }
}

pub open spec fn bool_text(b: bool) -> Seq<char> {
    if b { "true"@ } else { "false"@ }
}

/// What reading `s` as a `bool` gives: exactly `true` or `false`.
pub open spec fn parse_bool_spec(s: Seq<char>) -> Option<bool> {
    if s == "true"@ {
        Some(true)
    } else if s == "false"@ {
        Some(false)
    } else {
        None
    }
}

/// ASCII upper-case letters lowered; every other character kept.
pub open spec fn ascii_lower(c: char) -> char {
    if 'A' <= c <= 'Z' { (c as int + 32) as char } else { c }
}

/// `key` equals `name` once its ASCII letters are lowered.
pub open spec fn key_is(key: Seq<char>, name: Seq<char>) -> bool {
    &&& key.len() == name.len()
    &&& forall|i: int| 0 <= i < key.len() ==> ascii_lower(#[trigger] key[i]) == name[i]
}

/// The character sequences held by a list of character vectors.
pub open spec fn views(v: Seq<Vec<char>>) -> Seq<Seq<char>> {
    v.map_values(|x: Vec<char>| x@)
}

// ---------------------------------------------------------------------
// Lemmas
// ---------------------------------------------------------------------

pub proof fn lemma_split_nonempty(s: Seq<char>, sep: char)
    ensures
        split_on(s, sep).len() >= 1,
    decreases s.len(),
{
    if s.len() > 0 {
        lemma_split_nonempty(s.drop_last(), sep);
    }
}

/// A text without `sep` is a single piece.
pub proof fn lemma_split_no_sep(s: Seq<char>, sep: char)
    requires
        !s.contains(sep),
    ensures
        split_on(s, sep) == seq![s],
    decreases s.len(),
{
    if s.len() > 0 {
        let t = s.drop_last();
        assert forall|i: int| 0 <= i < t.len() implies t[i] != sep by {
            assert(t[i] == s[i]);
        }
        lemma_split_no_sep(t, sep);
        assert(s.last() != sep) by {
            if s.last() == sep {
                assert(s[s.len() - 1] == sep);
                assert(s.contains(sep));
            }
        }
        assert(t.push(s.last()) =~= s);
        assert(seq![t].update(0, t.push(s.last())) =~= seq![s]);
    } else {
        assert(s =~= Seq::<char>::empty());
    }
}

/// No piece of a split holds the separator, nor a character that the text
/// does not hold.
pub proof fn lemma_split_pieces_lack(s: Seq<char>, sep: char, c: char)
    requires
        c == sep || !s.contains(c),
    ensures
        forall|j: int|
            0 <= j < split_on(s, sep).len() ==> !(#[trigger] split_on(s, sep)[j]).contains(c),
    decreases s.len(),
{
    if s.len() > 0 {
        let t = s.drop_last();
        assert(!t.contains(c) || c == sep) by {
            if c != sep && t.contains(c) {
                let k = choose|k: int| 0 <= k < t.len() && t[k] == c;
                assert(s[k] == c);
            }
        }
        lemma_split_pieces_lack(t, sep, c);
        lemma_split_nonempty(t, sep);
        let init = split_on(t, sep);
        if s.last() != sep {
            assert(s.last() != c) by {
                if s.last() == c {
                    assert(s[s.len() - 1] == c);
                }
            }
            let lp = init.last().push(s.last());
            assert(!lp.contains(c)) by {
                if lp.contains(c) {
                    let k = choose|k: int| 0 <= k < lp.len() && lp[k] == c;
                    if k < init.last().len() {
                        assert(init.last()[k] == c);
                        assert(init[init.len() - 1].contains(c));
                    }
                }
            }
        }
        assert forall|j: int|
            0 <= j < split_on(s, sep).len() implies !(#[trigger] split_on(s, sep)[j]).contains(c) by {
            if s.last() == sep {
                if j < init.len() {
                    assert(split_on(s, sep)[j] == init[j]);
                } else {
                    assert(split_on(s, sep)[j] =~= Seq::<char>::empty());
                }
            } else {
                if j < init.len() - 1 {
                    assert(split_on(s, sep)[j] == init[j]);
                }
            }
        }
    } else {
        assert(split_on(s, sep)[0] =~= Seq::<char>::empty());
    }
}

/// Splitting `a`, `sep`, `b` gives the pieces of `a` followed by those of `b`.
pub proof fn lemma_split_concat(a: Seq<char>, b: Seq<char>, sep: char)
    ensures
        split_on(a.push(sep) + b, sep) == split_on(a, sep) + split_on(b, sep),
    decreases b.len(),
{
    lemma_split_nonempty(a, sep);
    lemma_split_nonempty(b, sep);
    if b.len() == 0 {
        assert(a.push(sep) + b =~= a.push(sep));
        assert(a.push(sep).drop_last() =~= a);
        assert(split_on(b, sep) =~= seq![Seq::<char>::empty()]);
        assert(split_on(a, sep).push(Seq::<char>::empty()) =~= split_on(a, sep) + split_on(b, sep));
    } else {
        let s = a.push(sep) + b;
        let bi = b.drop_last();
        assert(s.drop_last() =~= a.push(sep) + bi);
        assert(s.last() == b.last());
        lemma_split_concat(a, bi, sep);
        lemma_split_nonempty(bi, sep);
        let pa = split_on(a, sep);
        let pb = split_on(bi, sep);
        if b.last() == sep {
            assert((pa + pb).push(Seq::<char>::empty()) =~= pa + pb.push(Seq::<char>::empty()));
        } else {
            assert((pa + pb).update((pa + pb).len() - 1, (pa + pb).last().push(b.last()))
                =~= pa + pb.update(pb.len() - 1, pb.last().push(b.last())));
        }
    }
}

/// Joining pieces that hold no `sep` and splitting again gives the pieces.
pub proof fn lemma_split_join(pieces: Seq<Seq<char>>, sep: char)
    requires
        pieces.len() >= 1,
        forall|i: int| 0 <= i < pieces.len() ==> !(#[trigger] pieces[i]).contains(sep),
    ensures
        split_on(join_with(pieces, sep), sep) == pieces,
    decreases pieces.len(),
{
    if pieces.len() == 1 {
        lemma_split_no_sep(pieces[0], sep);
        assert(seq![pieces[0]] =~= pieces);
    } else {
        let init = pieces.drop_last();
        assert forall|i: int| 0 <= i < init.len() implies !(#[trigger] init[i]).contains(sep) by {
            assert(init[i] == pieces[i]);
        }
        lemma_split_join(init, sep);
        assert(!pieces[pieces.len() - 1].contains(sep));
        lemma_split_no_sep(pieces.last(), sep);
        lemma_split_concat(join_with(init, sep), pieces.last(), sep);
        assert(init + seq![pieces.last()] =~= pieces);
    }
}

pub proof fn lemma_decimal_digits(n: nat)
    ensures
        decimal(n).len() >= 1,
        all_digits(decimal(n)),
        digits_value(decimal(n)) == n,
        decimal(n)[0] != '+',
    decreases n,
{
    assert(digit_value(digit_char(n % 10)) == n % 10);
    assert(n == (n / 10) * 10 + n % 10);
    if n < 10 {
        assert(seq![digit_char(n)].drop_last() =~= Seq::<char>::empty());
        assert(digits_value(Seq::<char>::empty()) == 0);
        assert(seq![digit_char(n)].last() == digit_char(n));
        assert(n % 10 == n);
    } else {
        lemma_decimal_digits(n / 10);
        let d = decimal(n / 10);
        let e = d.push(digit_char(n % 10));
        assert(e.drop_last() =~= d);
        assert(e.last() == digit_char(n % 10));
        assert(digits_value(e) == digits_value(d) * 10 + digit_value(e.last()));
        assert forall|i: int| 0 <= i < e.len() implies is_digit(#[trigger] e[i]) by {
            if i < d.len() {
                assert(e[i] == d[i]);
            }
        }
        assert(e[0] == d[0]);
    }
}

/// Reading back the decimal writing of a `u32` gives the number.
pub proof fn lemma_parse_decimal(n: u32)
    ensures
        parse_u32_spec(decimal(n as nat)) == Some(n),
{
    lemma_decimal_digits(n as nat);
}

pub proof fn lemma_decimal_no_char(n: nat, c: char)
    requires
        !is_digit(c),
    ensures
        !decimal(n).contains(c),
{
    lemma_decimal_digits(n);
}

pub proof fn lemma_parse_bool_text(b: bool)
    ensures
        parse_bool_spec(bool_text(b)) == Some(b),
{
    reveal_strlit("true");
    reveal_strlit("false");
    assert("true"@.len() == 4);
    assert("false"@.len() == 5);
}

// ---------------------------------------------------------------------
// Executable helpers
// ---------------------------------------------------------------------

/// The characters of `s`, in order.
pub fn chars_of(s: &str) -> (res: Vec<char>)
    ensures
        res@ == s@,
{
    let mut res: Vec<char> = Vec::new();
    for c in it: s.chars()
        invariant
            res@ == it.seq().take(it.index() as int),
            it.seq() == s@,
    {
        res.push(c);
    }
    res
}

/// Builds a `String` from characters (std's `FromIterator<&char>` for `String`).
#[verifier::external_body]
pub(crate) fn string_of(v: &Vec<char>) -> (res: String)
    ensures
        res@ == v@,
{
    v.iter().collect()
}

/// Appends the characters of `s` to `out`.
pub fn push_str(out: &mut Vec<char>, s: &str)
    ensures
        final(out)@ == old(out)@ + s@,
{
    let cs = chars_of(s);
    push_chars(out, &cs);
}

/// Appends the characters of `cs` to `out`.
pub fn push_chars(out: &mut Vec<char>, cs: &Vec<char>)
    ensures
        final(out)@ == old(out)@ + cs@,
{
    let ghost start = out@;
    let mut i: usize = 0;
    while i < cs.len()
        invariant
            i <= cs.len(),
            out@ == start + cs@.take(i as int),
        decreases cs.len() - i,
    {
        out.push(cs[i]);
        i = i + 1;
        assert(out@ =~= start + cs@.take(i as int));
    }
    assert(cs@.take(i as int) =~= cs@);
}

/// Whether the two character sequences are equal.
pub fn chars_equal(a: &Vec<char>, b: &Vec<char>) -> (res: bool)
    ensures
        res == (a@ == b@),
{
    if a.len() != b.len() {
        return false;
    }
    let mut i: usize = 0;
    while i < a.len()
        invariant
            i <= a.len(),
            a.len() == b.len(),
            forall|j: int| 0 <= j < i ==> a@[j] == b@[j],
        decreases a.len() - i,
    {
        if a[i] != b[i] {
            return false;
        }
        i = i + 1;
    }
    assert(a@ =~= b@);
    true
}

/// Whether the characters `a` spell exactly `b`.
pub fn chars_equal_str(a: &Vec<char>, b: &str) -> (res: bool)
    ensures
        res == (a@ == b@),
{
    let bc = chars_of(b);
    chars_equal(a, &bc)
}

pub fn is_whitespace_char(c: char) -> (res: bool)
    ensures
        res == is_whitespace(c),
{
    ('\u{9}' <= c && c <= '\u{d}') || c == ' ' || c == '\u{85}' || c == '\u{a0}' || c == '\u{1680}'
        || ('\u{2000}' <= c && c <= '\u{200a}') || c == '\u{2028}' || c == '\u{2029}' || c
        == '\u{202f}' || c == '\u{205f}' || c == '\u{3000}'
}

/// The characters of `s[from..to]`.
pub fn sub_chars(s: &Vec<char>, from: usize, to: usize) -> (res: Vec<char>)
    requires
        from <= to <= s.len(),
    ensures
        res@ == s@.subrange(from as int, to as int),
{
    let mut res: Vec<char> = Vec::new();
    let mut i: usize = from;
    while i < to
        invariant
            from <= i <= to,
            to <= s.len(),
            res@ == s@.subrange(from as int, i as int),
        decreases to - i,
    {
        res.push(s[i]);
        i = i + 1;
        assert(res@ =~= s@.subrange(from as int, i as int));
    }
    res
}

/// `s` without leading and trailing whitespace.
pub fn trim_chars(s: &Vec<char>) -> (res: Vec<char>)
    ensures
        res@ == trim(s@),
{
    let n: usize = s.len();
    let mut a: usize = 0;
    assert(s@.subrange(0, n as int) =~= s@);
    while a < n && is_whitespace_char(s[a])
        invariant
            a <= n,
            n == s.len(),
            trim_start(s@) == trim_start(s@.subrange(a as int, n as int)),
        decreases n - a,
    {
        assert(s@.subrange(a as int, n as int).drop_first() =~= s@.subrange(a + 1, n as int));
        a = a + 1;
    }
    assert(trim_start(s@) == s@.subrange(a as int, n as int));
    let mut b: usize = n;
    while b > a && is_whitespace_char(s[b - 1])
        invariant
            a <= b <= n,
            n == s.len(),
            trim(s@) == trim_end(s@.subrange(a as int, b as int)),
        decreases b,
    {
        assert(s@.subrange(a as int, b as int).drop_last() =~= s@.subrange(a as int, b - 1));
        b = b - 1;
    }
    sub_chars(s, a, b)
}

/// Position of the first `c` in `s`, if any.
pub fn find_char(s: &Vec<char>, c: char) -> (res: Option<usize>)
    ensures
        match res {
            Some(i) => index_of(s@, c) == Some(i as nat) && i < s.len(),
            None => index_of(s@, c) is None,
        },
{
    let n: usize = s.len();
    let mut i: usize = 0;
    assert(s@.subrange(0, n as int) =~= s@);
    while i < n
        invariant
            i <= n,
            n == s.len(),
            index_of(s@, c) == (match index_of(s@.subrange(i as int, n as int), c) {
                Some(k) => Some((k + i) as nat),
                None => None::<nat>,
            }),
        decreases n - i,
    {
        if s[i] == c {
            return Some(i);
        }
        assert(s@.subrange(i as int, n as int).drop_first() =~= s@.subrange(i + 1, n as int));
        i = i + 1;
    }
    None
}

/// The pieces of `s` between occurrences of `sep`.
pub fn split_chars(s: &Vec<char>, sep: char) -> (res: Vec<Vec<char>>)
    ensures
        views(res@) == split_on(s@, sep),
{
    let mut pieces: Vec<Vec<char>> = Vec::new();
    let mut cur: Vec<char> = Vec::new();
    let mut i: usize = 0;
    while i < s.len()
        invariant
            i <= s.len(),
            views(pieces@).push(cur@) == split_on(s@.take(i as int), sep),
        decreases s.len() - i,
    {
        let ghost before = views(pieces@).push(cur@);
        let c = s[i];
        proof {
            assert(s@.take(i + 1).drop_last() =~= s@.take(i as int));
            assert(s@.take(i + 1).last() == c);
        }
        if c == sep {
            let done = cur;
            pieces.push(done);
            cur = Vec::new();
            assert(views(pieces@).push(cur@) =~= before.push(Seq::<char>::empty()));
        } else {
            cur.push(c);
            assert(views(pieces@).push(cur@) =~= before.update(
                before.len() - 1,
                before.last().push(c),
            ));
        }
        i = i + 1;
    }
    assert(s@.take(s.len() as int) =~= s@);
    let ghost before = views(pieces@).push(cur@);
    pieces.push(cur);
    assert(views(pieces@) =~= before);
    pieces
}

/// The pieces joined with `sep` between neighbours.
pub fn join_chars(pieces: &Vec<Vec<char>>, sep: char) -> (res: Vec<char>)
    ensures
        res@ == join_with(views(pieces@), sep),
{
    let mut out: Vec<char> = Vec::new();
    let mut i: usize = 0;
    while i < pieces.len()
        invariant
            i <= pieces.len(),
            out@ == join_with(views(pieces@).take(i as int), sep),
        decreases pieces.len() - i,
    {
        let ghost prev = views(pieces@).take(i as int);
        if i > 0 {
            out.push(sep);
        }
        push_chars(&mut out, &pieces[i]);
        i = i + 1;
        proof {
            let now = views(pieces@).take(i as int);
            assert(now.drop_last() =~= prev);
            if i == 1 {
                assert(out@ =~= now[0]);
            }
        }
    }
    assert(views(pieces@).take(pieces.len() as int) =~= views(pieces@));
    out
}

/// Appends the decimal writing of `n`.
pub fn push_decimal(out: &mut Vec<char>, n: u64)
    ensures
        final(out)@ == old(out)@ + decimal(n as nat),
    decreases n,
{
    if n >= 10 {
        push_decimal(out, n / 10);
    }
    let d: u8 = (n % 10) as u8;
    let c: char = (d + 48) as char;
    assert(c == digit_char((n % 10) as nat));
    out.push(c);
    proof {
        if n >= 10 {
            assert(old(out)@ + decimal(n as nat) =~= old(out)@ + decimal((n / 10) as nat) + seq![c]);
        } else {
            assert(old(out)@ + decimal(n as nat) =~= old(out)@.push(c));
        }
    }
}

/// Appends `n` written with at least two digits.
pub fn push_pad2(out: &mut Vec<char>, n: u64)
    ensures
        final(out)@ == old(out)@ + pad2(n as nat),
{
    let ghost start = out@;
    if n < 10 {
        out.push('0');
        push_decimal(out, n);
        assert(out@ =~= start + pad2(n as nat));
    } else {
        push_decimal(out, n);
    }
}

/// Appends `true` or `false`.
pub fn push_bool(out: &mut Vec<char>, b: bool)
    ensures
        final(out)@ == old(out)@ + bool_text(b),
{
    if b {
        push_str(out, "true");
    } else {
        push_str(out, "false");
    }
}

/// Reads a `u32` the way `str::parse::<u32>` does.
pub fn parse_u32_chars(s: &Vec<char>) -> (res: Option<u32>)
    ensures
        res == parse_u32_spec(s@),
{
    let n: usize = s.len();
    let start: usize = if n > 0 && s[0] == '+' { 1 } else { 0 };
    let ghost d = if s@.len() > 0 && s@[0] == '+' { s@.drop_first() } else { s@ };
    assert(d =~= s@.subrange(start as int, n as int));
    if start == n {
        return None;
    }
    let mut acc: u64 = 0;
    let mut i: usize = start;
    while i < n
        invariant
            start <= i <= n,
            n == s.len(),
            d == s@.subrange(start as int, n as int),
            d == (if s@.len() > 0 && s@[0] == '+' { s@.drop_first() } else { s@ }),
            all_digits(s@.subrange(start as int, i as int)),
            acc as nat == if digits_value(s@.subrange(start as int, i as int)) <= u32::MAX {
                digits_value(s@.subrange(start as int, i as int))
            } else {
                u32::MAX as nat + 1
            },
        decreases n - i,
    {
        let c = s[i];
        if !('0' <= c && c <= '9') {
            assert(d[i - start] == c);
            assert(!is_digit(d[i - start]));
            assert(!all_digits(d));
            return None;
        }
        let ghost prefix = s@.subrange(start as int, i + 1);
        assert(prefix.drop_last() =~= s@.subrange(start as int, i as int));
        assert(prefix.last() == c);
        let dv: u64 = (c as u64) - 48;
        assert(dv == digit_value(c));
        let next: u64 = acc * 10 + dv;
        acc = if next > 4294967295u64 { 4294967296u64 } else { next };
        i = i + 1;
        assert forall|j: int| 0 <= j < prefix.len() implies is_digit(#[trigger] prefix[j]) by {
            if j < prefix.len() - 1 {
                assert(prefix[j] == s@.subrange(start as int, i - 1)[j]);
            }
        }
    }
    if acc > 4294967295u64 {
        None
    } else {
        Some(acc as u32)
    }
}

/// Reads a `bool` the way `str::parse::<bool>` does.
pub fn parse_bool_chars(s: &Vec<char>) -> (res: Option<bool>)
    ensures
        res == parse_bool_spec(s@),
{
    if chars_equal_str(s, "true") {
        Some(true)
    } else if chars_equal_str(s, "false") {
        Some(false)
    } else {
        None
    }
}

pub fn ascii_lower_char(c: char) -> (res: char)
    ensures
        res == ascii_lower(c),
{
    if 'A' <= c && c <= 'Z' {
        let v: u32 = (c as u32) + 32;
        let r: char = (v as u8) as char;
        r
    } else {
        c
    }
}

/// Whether `key` names the setting `name` (ASCII letters compared without case).
pub fn key_matches(key: &Vec<char>, name: &str) -> (res: bool)
    ensures
        res == key_is(key@, name@),
{
    let nm = chars_of(name);
    if key.len() != nm.len() {
        return false;
    }
    let mut i: usize = 0;
    while i < key.len()
        invariant
            i <= key.len(),
            key.len() == nm.len(),
            nm@ == name@,
            forall|j: int| 0 <= j < i ==> ascii_lower(#[trigger] key@[j]) == nm@[j],
        decreases key.len() - i,
    {
        if ascii_lower_char(key[i]) != nm[i] {
            return false;
        }
        i = i + 1;
    }
    true
}


pub proof fn lemma_index_of_none(s: Seq<char>, c: char)
    requires
        !s.contains(c),
    ensures
        index_of(s, c) is None,
    decreases s.len(),
{
    if s.len() > 0 {
        assert(s[0] != c) by {
            if s[0] == c {
                assert(s.contains(c));
            }
        }
        let t = s.drop_first();
        if t.contains(c) {
            let k = choose|k: int| 0 <= k < t.len() && t[k] == c;
            assert(s[k + 1] == c);
            assert(s.contains(c));
        }
        lemma_index_of_none(t, c);
    }
}

/// The first `c` of `s` stands at `k`.
pub proof fn lemma_index_of_at(s: Seq<char>, c: char, k: int)
    requires
        0 <= k < s.len(),
        s[k] == c,
        forall|j: int| 0 <= j < k ==> s[j] != c,
    ensures
        index_of(s, c) == Some(k as nat),
    decreases k,
{
    if k > 0 {
        let t = s.drop_first();
        assert forall|j: int| 0 <= j < k - 1 implies t[j] != c by {
            assert(t[j] == s[j + 1]);
        }
        lemma_index_of_at(t, c, k - 1);
    }
}


pub proof fn lemma_trim_start_shape(s: Seq<char>) -> (k: int)
    ensures
        0 <= k <= s.len(),
        trim_start(s) == s.subrange(k, s.len() as int),
        trim_start(s).len() > 0 ==> !is_whitespace(trim_start(s)[0]),
    decreases s.len(),
{
    if s.len() > 0 && is_whitespace(s[0]) {
        let k1 = lemma_trim_start_shape(s.drop_first());
        assert(s.drop_first().subrange(k1, s.len() - 1) =~= s.subrange(k1 + 1, s.len() as int));
        k1 + 1
    } else {
        assert(s.subrange(0, s.len() as int) =~= s);
        0
    }
}

pub proof fn lemma_trim_end_shape(s: Seq<char>) -> (k: int)
    ensures
        0 <= k <= s.len(),
        trim_end(s) == s.subrange(0, k),
        trim_end(s).len() > 0 ==> !is_whitespace(trim_end(s).last()),
    decreases s.len(),
{
    if s.len() > 0 && is_whitespace(s.last()) {
        let k1 = lemma_trim_end_shape(s.drop_last());
        assert(s.drop_last().subrange(0, k1) =~= s.subrange(0, k1));
        k1
    } else {
        assert(s.subrange(0, s.len() as int) =~= s);
        s.len() as int
    }
}

/// A trimmed non-empty text starts and ends with a non-whitespace character.
pub proof fn lemma_trimmed_ends(s: Seq<char>)
    requires
        trim(s) == s,
        s.len() > 0,
    ensures
        !is_whitespace(s[0]),
        !is_whitespace(s.last()),
{
    let w = trim_start(s);
    lemma_trim_start_shape(s);
    let k = lemma_trim_end_shape(w);
    assert(s[0] == w[0]);
}

/// A text whose ends are not whitespace is its own trim.
pub proof fn lemma_trim_plain(s: Seq<char>)
    requires
        s.len() > 0,
        !is_whitespace(s[0]),
        !is_whitespace(s.last()),
    ensures
        trim(s) == s,
{
}

pub proof fn lemma_no_char_concat(a: Seq<char>, b: Seq<char>, c: char)
    requires
        !a.contains(c),
        !b.contains(c),
    ensures
        !(a + b).contains(c),
{
    if (a + b).contains(c) {
        let k = choose|k: int| 0 <= k < (a + b).len() && (a + b)[k] == c;
        if k < a.len() {
            assert(a[k] == c);
        } else {
            assert(b[k - a.len()] == c);
        }
    }
}


/// `needle` occurs in `hay` as a run of consecutive characters.
pub open spec fn has_substring(hay: Seq<char>, needle: Seq<char>) -> bool {
    exists|i: int|
        0 <= i && i + needle.len() <= hay.len() && #[trigger] hay.subrange(i, i + needle.len())
            == needle
}

/// Whether `needle` occurs in `hay` (`str::contains`).
pub fn contains_str(hay: &str, needle: &str) -> (res: bool)
    ensures
        res == has_substring(hay@, needle@),
{
    let h = chars_of(hay);
    let n = chars_of(needle);
    if n.len() > h.len() {
        assert(!has_substring(hay@, needle@));
        return false;
    }
    if n.len() == 0 {
        assert(hay@.subrange(0, 0int + needle@.len()) =~= needle@);
        return true;
    }
    let last: usize = h.len() - n.len();
    let mut i: usize = 0;
    while i <= last
        invariant
            n.len() >= 1,
            h@ == hay@,
            n@ == needle@,
            last + n.len() == h.len(),
            forall|k: int| 0 <= k < i ==> #[trigger] h@.subrange(k, k + n@.len()) != n@,
        decreases last + 1 - i,
    {
        let mut j: usize = 0;
        let mut same = true;
        while j < n.len()
            invariant
                i <= last,
                last + n.len() == h.len(),
                j <= n.len(),
                same ==> forall|m: int| 0 <= m < j ==> h@[i + m] == n@[m],
                !same ==> h@.subrange(i as int, i + n@.len()) != n@,
            decreases n.len() - j,
        {
            if h[i + j] != n[j] {
                same = false;
                assert(h@.subrange(i as int, i + n@.len())[j as int] != n@[j as int]);
            }
            j = j + 1;
        }
        if same {
            assert(h@.subrange(i as int, i + n@.len()) =~= n@);
            return true;
        }
        i = i + 1;
    }
    assert forall|k: int| 0 <= k && k + needle@.len() <= hay@.len() implies #[trigger] hay@.subrange(
        k,
        k + needle@.len(),
    ) != needle@ by {
        assert(h@.subrange(k, k + n@.len()) != n@);
    }
    false
}

} // verus!
