//! Character-level text operations shared by the rest of the library.
//!
//! Strings are modelled by their views, sequences of `char`; the executable
//! functions here work on `Vec<char>` and `String` and are proved against the
//! spec functions of this module.
use vstd::prelude::*;

verus! {

// ---------------------------------------------------------------------------
// White space and words
// ---------------------------------------------------------------------------

/// Whether `c` has Unicode's `White_Space` property, the set that
/// `char::is_whitespace`, `str::trim` and `str::split_whitespace` use.
pub open spec fn is_ws(c: char) -> bool {
    ||| c == '\t' || c == '\n' || c == '\u{0B}' || c == '\u{0C}' || c == '\r' || c == ' '
    ||| c == '\u{85}' || c == '\u{A0}' || c == '\u{1680}'
    ||| ('\u{2000}' <= c && c <= '\u{200A}')
    ||| c == '\u{2028}' || c == '\u{2029}' || c == '\u{202F}' || c == '\u{205F}'
    ||| c == '\u{3000}'
}

/// Executable form of [`is_ws`].
pub fn is_whitespace(c: char) -> (r: bool)
    ensures
        r == is_ws(c),
{
    c == '\t' || c == '\n' || c == '\u{0B}' || c == '\u{0C}' || c == '\r' || c == ' ' || c
        == '\u{85}' || c == '\u{A0}' || c == '\u{1680}' || ('\u{2000}' <= c && c <= '\u{200A}')
        || c == '\u{2028}' || c == '\u{2029}' || c == '\u{202F}' || c == '\u{205F}' || c
        == '\u{3000}'
}

/// A text made of white space only (empty once trimmed).
pub open spec fn is_blank(s: Seq<char>) -> bool {
    forall|i: int| 0 <= i < s.len() ==> is_ws(#[trigger] s[i])
}

/// The white-space separated words of `s`, in order, as `split_whitespace`
/// yields them.  Defined by extending `s` one character at a time: white
/// space ends a word, a character after white space (or at the start)
/// begins a new one, and any other character extends the last word.
pub open spec fn words(s: Seq<char>) -> Seq<Seq<char>>
    decreases s.len(),
{
    if s.len() == 0 {
        seq![]
    } else {
        let w = words(s.drop_last());
        let c = s.last();
        if is_ws(c) {
            w
        } else if s.len() >= 2 && !is_ws(s[s.len() - 2]) && w.len() > 0 {
            w.update(w.len() - 1, w.last().push(c))
        } else {
            w.push(seq![c])
        }
    }
}

/// The first word of `s`, or the empty text when `s` is blank.
pub open spec fn first_word(s: Seq<char>) -> Seq<char> {
    if words(s).len() > 0 {
        words(s)[0]
    } else {
        seq![]
    }
}

proof fn lemma_words_nonempty(s: Seq<char>)
    requires
        s.len() > 0,
        !is_ws(s.last()),
    ensures
        words(s).len() > 0,
{
}

pub proof fn lemma_words_blank(s: Seq<char>)
    ensures
        is_blank(s) <==> words(s).len() == 0,
    decreases s.len(),
{
    if s.len() > 0 {
        lemma_words_blank(s.drop_last());
        if !is_ws(s.last()) {
            lemma_words_nonempty(s);
        } else {
            if is_blank(s.drop_last()) {
                assert forall|i: int| 0 <= i < s.len() implies is_ws(#[trigger] s[i]) by {
                    if i < s.len() - 1 {
                        assert(s[i] == s.drop_last()[i]);
                    }
                }
            } else {
                let i = choose|i: int| 0 <= i < s.drop_last().len() && !is_ws(s.drop_last()[i]);
                assert(s[i] == s.drop_last()[i]);
            }
        }
    }
}

proof fn lemma_words_after_ws(x: Seq<char>, b: Seq<char>)
    requires
        x.len() > 0,
        is_ws(x.last()),
    ensures
        words(x + b) == words(x) + words(b),
    decreases b.len(),
{
    if b.len() == 0 {
        assert(x + b =~= x);
        assert(words(x) + words(b) =~= words(x));
    } else {
        let b1 = b.drop_last();
        let d = b.last();
        let xb = x + b;
        lemma_words_after_ws(x, b1);
        assert(xb.drop_last() =~= x + b1);
        assert(xb.last() == d);
        assert(b.drop_last() == b1);
        if is_ws(d) {
        } else if b1.len() == 0 {
            assert(xb[xb.len() - 2] == x.last());
            assert(words(b1) =~= Seq::<Seq<char>>::empty());
            assert(words(b) == words(b1).push(seq![d]));
            assert(words(xb) =~= words(x) + words(b));
        } else {
            assert(xb[xb.len() - 2] == b1.last());
            assert(b[b.len() - 2] == b1.last());
            if !is_ws(b1.last()) {
                lemma_words_nonempty(b1);
            }
            assert(words(xb) =~= words(x) + words(b));
        }
    }
}

/// Words never run across white space: the words of `a`, a white-space
/// character `c`, then `b` are the words of `a` followed by those of `b`.
pub proof fn lemma_words_concat(a: Seq<char>, c: char, b: Seq<char>)
    requires
        is_ws(c),
    ensures
        words(a.push(c) + b) == words(a) + words(b),
{
    let x = a.push(c);
    assert(x.drop_last() =~= a);
    assert(words(x) == words(a));
    lemma_words_after_ws(x, b);
}

/// A non-empty text without white space is one word.
pub proof fn lemma_words_single(a: Seq<char>)
    requires
        a.len() > 0,
        forall|i: int| 0 <= i < a.len() ==> !is_ws(#[trigger] a[i]),
    ensures
        words(a) == seq![a],
    decreases a.len(),
{
    let init = a.drop_last();
    if init.len() > 0 {
        assert forall|i: int| 0 <= i < init.len() implies !is_ws(#[trigger] init[i]) by {
            assert(init[i] == a[i]);
        }
        lemma_words_single(init);
        assert(a[a.len() - 2] == init.last());
        assert(init.push(a.last()) =~= a);
        assert(words(a) =~= seq![a]);
    } else {
        assert(words(init) =~= Seq::<Seq<char>>::empty());
        assert(seq![a.last()] =~= a);
    }
}

/// The first word of a word followed by white space and more text is that
/// word.
pub proof fn lemma_first_word_of(a: Seq<char>, rest: Seq<char>)
    requires
        a.len() > 0,
        forall|i: int| 0 <= i < a.len() ==> !is_ws(#[trigger] a[i]),
        rest.len() == 0 || is_ws(rest[0]),
    ensures
        first_word(a + rest) == a,
{
    lemma_words_single(a);
    if rest.len() == 0 {
        assert(a + rest =~= a);
    } else {
        lemma_words_concat(a, rest[0], rest.drop_first());
        assert(a.push(rest[0]) + rest.drop_first() =~= a + rest);
    }
}

/// Whether `s` is empty once leading and trailing white space is trimmed.
pub fn blank(s: &Vec<char>) -> (r: bool)
    ensures
        r == is_blank(s@),
{
    let mut i: usize = 0;
    while i < s.len()
        invariant
            i <= s.len(),
            forall|k: int| 0 <= k < i ==> is_ws(#[trigger] s@[k]),
        decreases s.len() - i,
    {
        if !is_whitespace(s[i]) {
            return false;
        }
        i += 1;
    }
    true
}

/// The texts held by a sequence of character vectors.
pub open spec fn char_views(v: Seq<Vec<char>>) -> Seq<Seq<char>> {
    v.map_values(|w: Vec<char>| w@)
}

/// The white-space separated words of `s`.
pub fn split_words(s: &Vec<char>) -> (r: Vec<Vec<char>>)
    ensures
        char_views(r@) == words(s@),
{
    let mut done: Vec<Vec<char>> = Vec::new();
    let mut cur: Vec<char> = Vec::new();
    let mut in_word = false;
    let mut i: usize = 0;
    while i < s.len()
        invariant
            i <= s.len(),
            in_word == (i > 0 && !is_ws(s@[i - 1])),
            in_word ==> words(s@.take(i as int)) == char_views(done@).push(cur@),
            !in_word ==> words(s@.take(i as int)) == char_views(done@),
        decreases s.len() - i,
    {
        let c = s[i];
        let ghost pre = s@.take(i as int);
        let ghost next = s@.take(i + 1);
        assert(next.drop_last() == pre);
        assert(next.last() == c);
        if is_whitespace(c) {
            if in_word {
                let ghost before = char_views(done@);
                done.push(cur);
                cur = Vec::new();
                assert(char_views(done@) =~= before.push(done@.last()@));
            }
            in_word = false;
        } else {
            if in_word {
                assert(next.len() >= 2 && next[next.len() - 2] == s@[i - 1]);
                let ghost w = words(pre);
                assert(w.last() == cur@);
                cur.push(c);
                assert(words(next) == w.update(w.len() - 1, w.last().push(c)));
                assert(words(next) == char_views(done@).push(cur@));
            } else {
                cur = Vec::new();
                cur.push(c);
                assert(cur@ == seq![c]);
                if i > 0 {
                    assert(next[next.len() - 2] == s@[i - 1]);
                }
            }
            in_word = true;
        }
        i += 1;
    }
    assert(s@.take(s.len() as int) == s@);
    if in_word {
        let ghost before = char_views(done@);
        let ghost last = cur@;
        done.push(cur);
        assert(char_views(done@) =~= before.push(last));
    }
    done
}

// ---------------------------------------------------------------------------
// Conversions between `String` and `Vec<char>`
// ---------------------------------------------------------------------------

/// The characters of `s`.
pub fn chars_of(s: &str) -> (r: Vec<char>)
    ensures
        r@ == s@,
{
    let mut r: Vec<char> = Vec::new();
    for c in it: s.chars()
        invariant
            it.seq() == s@,
            r@ == it.seq().take(it.index() as int),
    {
        r.push(c);
    }
    r
}

/// `String::push`: appends one character.
#[verifier::external_body]
pub(crate) fn push_char(s: &mut String, c: char)
    ensures
        final(s)@ == old(s)@.push(c),
{
    s.push(c);
}

/// `String::pop`, with its result dropped: removes the last character, if any.
#[verifier::external_body]
pub(crate) fn pop_char(s: &mut String)
    ensures
        final(s)@ == if old(s)@.len() == 0 {
            old(s)@
        } else {
            old(s)@.drop_last()
        },
{
    s.pop();
}

/// The string made of the characters of `v`.
pub fn string_from_chars(v: &Vec<char>) -> (r: String)
    ensures
        r@ == v@,
{
    let mut r = String::new();
    for i in 0..v.len()
        invariant
            r@ == v@.take(i as int),
    {
        push_char(&mut r, v[i]);
        assert(v@.take(i + 1) == v@.take(i as int).push(v@[i as int]));
    }
    assert(v@.take(v.len() as int) == v@);
    r
}

/// Appends all characters of `w` to `out`.
pub fn push_all(out: &mut Vec<char>, w: &Vec<char>)
    ensures
        final(out)@ == old(out)@ + w@,
{
    let ghost start = out@;
    for i in 0..w.len()
        invariant
            out@ == start + w@.take(i as int),
    {
        out.push(w[i]);
        assert(w@.take(i + 1) == w@.take(i as int).push(w@[i as int]));
    }
    assert(w@.take(w.len() as int) == w@);
}

/// Appends all characters of `s` to `out`.
pub fn push_str(out: &mut Vec<char>, s: &str)
    ensures
        final(out)@ == old(out)@ + s@,
{
    let cs = chars_of(s);
    push_all(out, &cs);
}

// ---------------------------------------------------------------------------
// Searching
// ---------------------------------------------------------------------------

/// `w` occurs in `s` at position `i`.
pub open spec fn occurs_at(s: Seq<char>, w: Seq<char>, i: int) -> bool {
    0 <= i && i + w.len() <= s.len() && s.subrange(i, i + w.len()) == w
}

/// `w` occurs somewhere in `s` (`str::contains`); the empty text occurs in
/// every text.
pub open spec fn contains(s: Seq<char>, w: Seq<char>) -> bool {
    exists|i: int| #[trigger] occurs_at(s, w, i)
}

/// Whether `w` occurs in `s` at position `i`.
pub fn matches_at(s: &Vec<char>, w: &Vec<char>, i: usize) -> (r: bool)
    requires
        i + w.len() <= s.len(),
    ensures
        r == occurs_at(s@, w@, i as int),
{
    let mut j: usize = 0;
    while j < w.len()
        invariant
            i + w.len() <= s.len(),
            j <= w.len(),
            forall|k: int| 0 <= k < j ==> s@[i + k] == w@[k],
        decreases w.len() - j,
    {
        if s[i + j] != w[j] {
            assert(s@.subrange(i as int, i + w.len())[j as int] != w@[j as int]);
            return false;
        }
        j += 1;
    }
    assert(s@.subrange(i as int, i + w.len()) =~= w@);
    true
}

/// Whether `w` occurs in `s`.
pub fn contains_chars(s: &Vec<char>, w: &Vec<char>) -> (r: bool)
    ensures
        r == contains(s@, w@),
{
    if w.len() > s.len() {
        assert forall|i: int| !occurs_at(s@, w@, i) by {}
        return false;
    }
    if w.len() == 0 {
        assert(s@.subrange(0, 0) =~= w@);
        assert(occurs_at(s@, w@, 0));
        return true;
    }
    let mut i: usize = 0;
    while i <= s.len() - w.len()
        invariant
            w.len() <= s.len(),
            i <= s.len() - w.len() + 1,
            w.len() > 0,
            forall|k: int| 0 <= k < i ==> !#[trigger] occurs_at(s@, w@, k),
        decreases s.len() - w.len() + 1 - i,
    {
        if matches_at(s, w, i) {
            return true;
        }
        i += 1;
    }
    assert forall|k: int| !#[trigger] occurs_at(s@, w@, k) by {
        if 0 <= k && k + w.len() <= s.len() {
            assert(k < i);
        }
    }
    false
}

// ---------------------------------------------------------------------------
// Replacing
// ---------------------------------------------------------------------------

/// `s` with every occurrence of the non-empty `pat` replaced by `rep`,
/// occurrences found from left to right without overlap (`str::replace`).
pub open spec fn replace_all(s: Seq<char>, pat: Seq<char>, rep: Seq<char>) -> Seq<char>
    recommends
        pat.len() > 0,
    decreases s.len(),
{
    if s.len() == 0 || pat.len() == 0 {
        s
    } else if occurs_at(s, pat, 0) {
        rep + replace_all(s.skip(pat.len() as int), pat, rep)
    } else {
        seq![s[0]] + replace_all(s.drop_first(), pat, rep)
    }
}

/// `s` with every occurrence of `pat` replaced by `rep`.
pub fn replace_chars(s: &Vec<char>, pat: &Vec<char>, rep: &Vec<char>) -> (r: Vec<char>)
    requires
        pat.len() > 0,
    ensures
        r@ == replace_all(s@, pat@, rep@),
{
    let mut out: Vec<char> = Vec::new();
    let mut i: usize = 0;
    assert(s@.skip(0) == s@);
    while i < s.len()
        invariant
            pat.len() > 0,
            i <= s.len(),
            replace_all(s@, pat@, rep@) == out@ + replace_all(s@.skip(i as int), pat@, rep@),
        decreases s.len() - i,
    {
        let ghost rest = s@.skip(i as int);
        if pat.len() <= s.len() - i && matches_at(s, pat, i) {
            assert(rest.subrange(0, pat.len() as int) == s@.subrange(i as int, i + pat.len()));
            assert(occurs_at(rest, pat@, 0));
            assert(rest.skip(pat.len() as int) == s@.skip(i + pat.len()));
            push_all(&mut out, rep);
            i += pat.len();
        } else {
            proof {
                if pat@.len() <= rest.len() {
                    assert(rest.subrange(0, pat@.len() as int) == s@.subrange(
                        i as int,
                        i + pat@.len(),
                    ));
                }
            }
            assert(!occurs_at(rest, pat@, 0));
            assert(rest.drop_first() == s@.skip(i + 1));
            assert(rest[0] == s@[i as int]);
            out.push(s[i]);
            i += 1;
        }
    }
    assert(s@.skip(i as int).len() == 0);
    out
}

// ---------------------------------------------------------------------------
// Decimal numerals
// ---------------------------------------------------------------------------

/// The decimal digit for `d`, where `0 <= d < 10`.
pub open spec fn digit(d: nat) -> char {
    if d == 0 {
        '0'
    } else if d == 1 {
        '1'
    } else if d == 2 {
        '2'
    } else if d == 3 {
        '3'
    } else if d == 4 {
        '4'
    } else if d == 5 {
        '5'
    } else if d == 6 {
        '6'
    } else if d == 7 {
        '7'
    } else if d == 8 {
        '8'
    } else {
        '9'
    }
}

/// The decimal numeral of `n`, without leading zeros (`n.to_string()`).
pub open spec fn dec(n: nat) -> Seq<char>
    decreases n,
{
    if n < 10 {
        seq![digit(n)]
    } else {
        dec(n / 10).push(digit(n % 10))
    }
}

/// The decimal numeral of `i`, with a leading `-` when negative.
pub open spec fn dec_int(i: int) -> Seq<char> {
    if i < 0 {
        seq!['-'] + dec((-i) as nat)
    } else {
        dec(i as nat)
    }
}

/// The value of a decimal digit character.
pub open spec fn digit_value(c: char) -> int {
    (c as int) - ('0' as int)
}

/// The number a string of decimal digits stands for, read left to right.
pub open spec fn numeral_value(s: Seq<char>) -> int
    decreases s.len(),
{
    if s.len() == 0 {
        0
    } else {
        numeral_value(s.drop_last()) * 10 + digit_value(s.last())
    }
}

proof fn lemma_digit(d: nat)
    requires
        d < 10,
    ensures
        digit_value(digit(d)) == d,
        '0' <= digit(d) && digit(d) <= '9',
        d != 0 ==> digit(d) != '0',
{
    assert('0' as int == 48);
    assert('1' as int == 49);
    assert('2' as int == 50);
    assert('3' as int == 51);
    assert('4' as int == 52);
    assert('5' as int == 53);
    assert('6' as int == 54);
    assert('7' as int == 55);
    assert('8' as int == 56);
    assert('9' as int == 57);
}

/// `dec(n)` is the decimal numeral of `n`: a non-empty string of digits
/// that reads as `n` and has no leading zero (unless it is `0` itself).
pub proof fn lemma_dec_is_numeral(n: nat)
    ensures
        dec(n).len() > 0,
        forall|i: int| 0 <= i < dec(n).len() ==> '0' <= #[trigger] dec(n)[i] && dec(n)[i] <= '9',
        numeral_value(dec(n)) == n,
        dec(n).len() > 1 ==> dec(n)[0] != '0',
    decreases n,
{
    if n < 10 {
        lemma_digit(n);
        assert(dec(n) == seq![digit(n)]);
        assert(seq![digit(n)].drop_last() =~= Seq::<char>::empty());
        assert(numeral_value(Seq::<char>::empty()) == 0);
        assert(numeral_value(seq![digit(n)]) == numeral_value(Seq::<char>::empty()) * 10
            + digit_value(digit(n)));
    } else {
        lemma_digit(n % 10);
        lemma_dec_is_numeral(n / 10);
        let d = dec(n / 10);
        assert(dec(n) == d.push(digit(n % 10)));
        assert(d.push(digit(n % 10)).drop_last() =~= d);
        assert forall|i: int| 0 <= i < dec(n).len() implies '0' <= #[trigger] dec(n)[i] && dec(n)[i]
            <= '9' by {
            if i < d.len() {
                assert(dec(n)[i] == d[i]);
            }
        }
        assert(dec(n)[0] == d[0]);
        assert(numeral_value(dec(n)) == numeral_value(d) * 10 + digit_value(digit(n % 10)));
        assert((n / 10) * 10 + n % 10 == n);
        if n / 10 < 10 {
            lemma_digit(n / 10);
            assert(d == seq![digit(n / 10)]);
        } else {
            lemma_dec_is_numeral(n / 100);
            assert(n / 10 / 10 == n / 100);
            assert(d == dec(n / 100).push(digit((n / 10) % 10)));
        }
    }
}

fn digit_char(d: u64) -> (c: char)
    requires
        d < 10,
    ensures
        c == digit(d as nat),
{
    match d {
        0 => '0',
        1 => '1',
        2 => '2',
        3 => '3',
        4 => '4',
        5 => '5',
        6 => '6',
        7 => '7',
        8 => '8',
        _ => '9',
    }
}

/// Appends the decimal numeral of `n` to `out`.
pub fn push_dec(out: &mut Vec<char>, n: u64)
    ensures
        final(out)@ == old(out)@ + dec(n as nat),
    decreases n,
{
    if n >= 10 {
        push_dec(out, n / 10);
    }
    out.push(digit_char(n % 10));
    assert(dec(n as nat) == if n < 10 {
        seq![digit(n as nat)]
    } else {
        dec((n / 10) as nat).push(digit((n % 10) as nat))
    });
}

/// Appends the decimal numeral of `v`, signed, to `out`.
pub fn push_dec_i64(out: &mut Vec<char>, v: i64)
    ensures
        final(out)@ == old(out)@ + dec_int(v as int),
{
    if v < 0 {
        out.push('-');
        let n: u64 = (0i128 - (v as i128)) as u64;
        push_dec(out, n);
        assert(out@ == old(out)@ + (seq!['-'] + dec(n as nat)));
    } else {
        push_dec(out, v as u64);
    }
}

// ---------------------------------------------------------------------------
// Case folding (std)
// ---------------------------------------------------------------------------

/// What `str::to_lowercase` returns for a text: Unicode's full lower-case
/// mapping of the text (which may turn one character into several, and
/// lowers a final Greek capital sigma differently).
pub uninterp spec fn lowercase(s: Seq<char>) -> Seq<char>;

/// Calls `str::to_lowercase`; claims only that the result is the text's
/// lower-case mapping, named [`lowercase`].
#[verifier::external_body]
pub(crate) fn to_lowercase(s: &str) -> (r: String)
    ensures
        r@ == lowercase(s@),
{
    s.to_lowercase()
}

} // verus!
