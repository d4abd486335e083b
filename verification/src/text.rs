use vstd::prelude::*;

verus! {

/// Copies the characters of `s` into a vector.
pub fn chars_of(s: &str) -> (v: Vec<char>)
    ensures
        v@ == s@,
{
    let mut v: Vec<char> = Vec::new();
    for c in iter: s.chars()
        invariant
            iter.seq() == s@,
            v@ == iter.seq().take(iter.index() as int),
    {
        v.push(c);
    }
    v
}

/// `String::push`: appends one character at the end of the string.
#[verifier::external_body]
pub(crate) fn push_char(s: &mut String, c: char)
    ensures
        final(s)@ == old(s)@.push(c),
{
    s.push(c);
}

/// Builds a string holding exactly the given characters.
pub fn string_of(v: &[char]) -> (s: String)
    ensures
        s@ == v@,
{
    let mut s = String::new();
    let mut i: usize = 0;
    while i < v.len()
        invariant
            i <= v.len(),
            s@ == v@.take(i as int),
        decreases v.len() - i,
    {
        push_char(&mut s, v[i]);
        assert(v@.take(i + 1) == v@.take(i as int).push(v@[i as int]));
        i = i + 1;
    }
    assert(v@.take(v.len() as int) == v@);
    s
}

/// Unicode `White_Space`, as `char::is_whitespace` decides it.
pub open spec fn is_ws(c: char) -> bool {
    ||| c == ' '
    ||| ('\t' <= c && c <= '\r')
    ||| c == '\u{85}'
    ||| c == '\u{a0}'
    ||| c == '\u{1680}'
    ||| ('\u{2000}' <= c && c <= '\u{200a}')
    ||| c == '\u{2028}'
    ||| c == '\u{2029}'
    ||| c == '\u{202f}'
    ||| c == '\u{205f}'
    ||| c == '\u{3000}'
}

pub fn is_whitespace(c: char) -> (b: bool)
    ensures
        b == is_ws(c),
{
    c == ' ' || ('\t' <= c && c <= '\r') || c == '\u{85}' || c == '\u{a0}' || c == '\u{1680}'
        || ('\u{2000}' <= c && c <= '\u{200a}') || c == '\u{2028}' || c == '\u{2029}'
        || c == '\u{202f}' || c == '\u{205f}' || c == '\u{3000}'
}

/// The text without its leading white space.
pub open spec fn trim_start(s: Seq<char>) -> Seq<char>
    decreases s.len(),
{
    if s.len() > 0 && is_ws(s[0]) {
        trim_start(s.drop_first())
    } else {
        s
    }
}

/// The text without its trailing white space.
pub open spec fn trim_end(s: Seq<char>) -> Seq<char>
    decreases s.len(),
{
    if s.len() > 0 && is_ws(s.last()) {
        trim_end(s.drop_last())
    } else {
        s
    }
}

/// `str::trim`: the text without leading and trailing white space.
pub open spec fn trim(s: Seq<char>) -> Seq<char> {
    trim_end(trim_start(s))
}

/// True when every character is white space (so the trimmed text is empty).
pub open spec fn is_blank(s: Seq<char>) -> bool {
    forall|i: int| 0 <= i < s.len() ==> is_ws(#[trigger] s[i])
}

pub proof fn lemma_trim_start_skip(s: Seq<char>, i: int)
    requires
        0 <= i <= s.len(),
        forall|j: int| 0 <= j < i ==> is_ws(#[trigger] s[j]),
    ensures
        trim_start(s) == trim_start(s.subrange(i, s.len() as int)),
    decreases i,
{
    if i > 0 {
        assert(s.drop_first().subrange(i - 1, s.drop_first().len() as int) == s.subrange(i, s.len() as int));
        lemma_trim_start_skip(s.drop_first(), i - 1);
    } else {
        assert(s.subrange(0, s.len() as int) == s);
    }
}

pub proof fn lemma_trim_end_skip(s: Seq<char>, i: int)
    requires
        0 <= i <= s.len(),
        forall|j: int| i <= j < s.len() ==> is_ws(#[trigger] s[j]),
    ensures
        trim_end(s) == trim_end(s.subrange(0, i)),
    decreases s.len() - i,
{
    if i < s.len() {
        assert(s.drop_last().subrange(0, i) == s.subrange(0, i));
        lemma_trim_end_skip(s.drop_last(), i);
    } else {
        assert(s.subrange(0, i) == s);
    }
}

/// Trim of a text whose first and last characters are not white space.
pub proof fn lemma_trim_fixed(s: Seq<char>)
    requires
        s.len() > 0 ==> !is_ws(s[0]) && !is_ws(s.last()),
    ensures
        trim(s) == s,
{
}

/// The trimmed text is a contiguous piece of the text.
pub proof fn lemma_trim_bounds(s: Seq<char>) -> (r: (int, int))
    ensures
        0 <= r.0 <= r.1 <= s.len(),
        trim(s) == s.subrange(r.0, r.1),
        trim(s).len() > 0 ==> !is_ws(trim(s)[0]) && !is_ws(trim(s).last()),
        trim(s).len() == 0 <==> is_blank(s),
    decreases s.len(),
{
    let t = trim_start(s);
    let (lo, hi) = lemma_trim_start_bounds(s);
    let (a, b) = lemma_trim_end_bounds(t);
    assert(t.subrange(a, b) == s.subrange(lo + a, lo + b));
    if trim(s).len() == 0 {
        assert forall|i: int| 0 <= i < s.len() implies is_ws(#[trigger] s[i]) by {
            if i >= lo {
                assert(t[i - lo] == s[i]);
            }
        }
    }
    if is_blank(s) && trim(s).len() > 0 {
        assert(s[lo] == trim(s)[0]);
    }
    (lo + a, lo + b)
}

proof fn lemma_trim_start_bounds(s: Seq<char>) -> (r: (int, int))
    ensures
        0 <= r.0 <= r.1 == s.len(),
        trim_start(s) == s.subrange(r.0, r.1),
        trim_start(s).len() > 0 ==> !is_ws(trim_start(s)[0]),
        forall|j: int| 0 <= j < r.0 ==> is_ws(#[trigger] s[j]),
    decreases s.len(),
{
    if s.len() > 0 && is_ws(s[0]) {
        let (a, b) = lemma_trim_start_bounds(s.drop_first());
        assert(s.drop_first().subrange(a, b) == s.subrange(a + 1, b + 1));
        assert forall|j: int| 0 <= j < a + 1 implies is_ws(#[trigger] s[j]) by {
            if j > 0 {
                assert(s[j] == s.drop_first()[j - 1]);
            }
        }
        (a + 1, b + 1)
    } else {
        assert(s.subrange(0, s.len() as int) == s);
        (0, s.len() as int)
    }
}

proof fn lemma_trim_end_bounds(s: Seq<char>) -> (r: (int, int))
    ensures
        0 == r.0 <= r.1 <= s.len(),
        trim_end(s) == s.subrange(r.0, r.1),
        trim_end(s).len() > 0 ==> !is_ws(trim_end(s).last()),
        forall|j: int| r.1 <= j < s.len() ==> is_ws(#[trigger] s[j]),
    decreases s.len(),
{
    if s.len() > 0 && is_ws(s.last()) {
        let (a, b) = lemma_trim_end_bounds(s.drop_last());
        assert(s.drop_last().subrange(a, b) == s.subrange(a, b));
        assert forall|j: int| b <= j < s.len() implies is_ws(#[trigger] s[j]) by {
            if j < s.len() - 1 {
                assert(s[j] == s.drop_last()[j]);
            }
        }
        (a, b)
    } else {
        assert(s.subrange(0, s.len() as int) == s);
        (0, s.len() as int)
    }
}

/// `str::trim` on a character vector.
pub fn trim_chars(s: &[char]) -> (r: Vec<char>)
    ensures
        r@ == trim(s@),
{
    let n = s.len();
    let mut lo: usize = 0;
    while lo < n && is_whitespace(s[lo])
        invariant
            lo <= n,
            n == s@.len(),
            forall|j: int| 0 <= j < lo ==> is_ws(#[trigger] s@[j]),
        decreases n - lo,
    {
        lo = lo + 1;
    }
    let ghost rest = s@.subrange(lo as int, n as int);
    proof {
        lemma_trim_start_skip(s@, lo as int);
        if lo < n {
            assert(rest[0] == s@[lo as int]);
        } else {
            assert(rest.len() == 0);
        }
        assert(trim_start(rest) == rest);
    }
    let mut hi: usize = n;
    while hi > lo && is_whitespace(s[hi - 1])
        invariant
            lo <= hi <= n,
            n == s@.len(),
            forall|j: int| hi <= j < n ==> is_ws(#[trigger] s@[j]),
        decreases hi,
    {
        hi = hi - 1;
    }
    proof {
        let k = hi - lo;
        assert forall|j: int| k <= j < rest.len() implies is_ws(#[trigger] rest[j]) by {
            assert(rest[j] == s@[lo + j]);
        }
        lemma_trim_end_skip(rest, k as int);
        let piece = rest.subrange(0, k as int);
        assert(piece == s@.subrange(lo as int, hi as int));
        if k > 0 {
            assert(piece.last() == s@[hi - 1]);
        }
        assert(trim_end(piece) == piece);
    }
    let mut r: Vec<char> = Vec::new();
    let mut i: usize = lo;
    while i < hi
        invariant
            lo <= i <= hi <= n,
            n == s@.len(),
            r@ == s@.subrange(lo as int, i as int),
        decreases hi - i,
    {
        r.push(s[i]);
        assert(s@.subrange(lo as int, i + 1) == s@.subrange(lo as int, i as int).push(s@[i as int]));
        i = i + 1;
    }
    r
}


/// Removes one trailing carriage return.
pub open spec fn strip_cr(s: Seq<char>) -> Seq<char> {
    if s.len() > 0 && s.last() == '\r' {
        s.drop_last()
    } else {
        s
    }
}

/// The lines of `rest`, given that the line in progress so far holds `cur`.
pub open spec fn lines_from(rest: Seq<char>, cur: Seq<char>) -> Seq<Seq<char>>
    decreases rest.len(),
{
    if rest.len() == 0 {
        if cur.len() == 0 {
            seq![]
        } else {
            seq![cur]
        }
    } else if rest[0] == '\n' {
        seq![strip_cr(cur)] + lines_from(rest.drop_first(), seq![])
    } else {
        lines_from(rest.drop_first(), cur.push(rest[0]))
    }
}

/// `str::lines`: the text split at `\n`, a `\r` right before a `\n` dropped,
/// and no empty last line after a final line ending.
pub open spec fn lines(s: Seq<char>) -> Seq<Seq<char>> {
    lines_from(s, seq![])
}

pub open spec fn no_newline(s: Seq<char>) -> bool {
    forall|i: int| 0 <= i < s.len() ==> #[trigger] s[i] != '\n'
}

pub proof fn lemma_lines_from_no_newline(rest: Seq<char>, cur: Seq<char>)
    requires
        no_newline(cur),
    ensures
        forall|k: int| 0 <= k < lines_from(rest, cur).len() ==> no_newline(#[trigger] lines_from(rest, cur)[k]),
    decreases rest.len(),
{
    if rest.len() == 0 {
        if cur.len() > 0 {
            assert(lines_from(rest, cur) == seq![cur]);
            assert(lines_from(rest, cur)[0] == cur);
        }
    } else if rest[0] == '\n' {
        lemma_lines_from_no_newline(rest.drop_first(), seq![]);
        let head = strip_cr(cur);
        assert(no_newline(head)) by {
            assert forall|i: int| 0 <= i < head.len() implies #[trigger] head[i] != '\n' by {
                assert(head[i] == cur[i]);
            }
        }
        let tail = lines_from(rest.drop_first(), seq![]);
        assert forall|k: int| 0 <= k < lines_from(rest, cur).len() implies no_newline(#[trigger] lines_from(rest, cur)[k]) by {
            if k > 0 {
                assert(lines_from(rest, cur)[k] == tail[k - 1]);
            }
        }
    } else {
        let c2 = cur.push(rest[0]);
        assert(no_newline(c2)) by {
            assert forall|i: int| 0 <= i < c2.len() implies #[trigger] c2[i] != '\n' by {
                if i < cur.len() {
                    assert(c2[i] == cur[i]);
                }
            }
        }
        lemma_lines_from_no_newline(rest.drop_first(), c2);
        assert(lines_from(rest, cur) == lines_from(rest.drop_first(), c2));
    }
}

/// No line holds a line feed.
pub proof fn lemma_lines_no_newline(s: Seq<char>)
    ensures
        forall|k: int| 0 <= k < lines(s).len() ==> no_newline(#[trigger] lines(s)[k]),
{
    lemma_lines_from_no_newline(s, seq![]);
}

proof fn lemma_lines_from_single(rest: Seq<char>, cur: Seq<char>)
    requires
        no_newline(rest),
    ensures
        lines_from(rest, cur) == (if cur.len() + rest.len() == 0 { seq![] } else { seq![cur + rest] }),
    decreases rest.len(),
{
    if rest.len() == 0 {
        assert(cur + rest == cur);
    } else {
        assert(rest[0] != '\n');
        assert(no_newline(rest.drop_first())) by {
            assert forall|i: int| 0 <= i < rest.drop_first().len() implies #[trigger] rest.drop_first()[i] != '\n' by {
                assert(rest.drop_first()[i] == rest[i + 1]);
            }
        }
        lemma_lines_from_single(rest.drop_first(), cur.push(rest[0]));
        assert(cur.push(rest[0]) + rest.drop_first() == cur + rest);
    }
}

/// A non-empty text without line feeds is a single line.
pub proof fn lemma_lines_single(s: Seq<char>)
    requires
        no_newline(s),
        s.len() > 0,
    ensures
        lines(s) == seq![s],
{
    lemma_lines_from_single(s, seq![]);
    assert(seq![] + s == s);
}

proof fn lemma_lines_from_first(rest: Seq<char>, cur: Seq<char>)
    requires
        cur.len() > 0,
        cur[0] != '\r',
    ensures
        lines_from(rest, cur).len() > 0,
        lines_from(rest, cur)[0].len() > 0,
        lines_from(rest, cur)[0][0] == cur[0],
    decreases rest.len(),
{
    if rest.len() == 0 {
        assert(lines_from(rest, cur) == seq![cur]);
    } else if rest[0] == '\n' {
        let head = strip_cr(cur);
        assert(head.len() > 0 && head[0] == cur[0]);
        assert((seq![head] + lines_from(rest.drop_first(), seq![]))[0] == head);
    } else {
        lemma_lines_from_first(rest.drop_first(), cur.push(rest[0]));
    }
}

/// A text that starts with neither a line feed nor a carriage return has a
/// first line, and that line starts with the text's first character.
pub proof fn lemma_lines_first(s: Seq<char>)
    requires
        s.len() > 0,
        s[0] != '\n',
        s[0] != '\r',
    ensures
        lines(s).len() > 0,
        lines(s)[0].len() > 0,
        lines(s)[0][0] == s[0],
{
    let one = seq![s[0]];
    assert(Seq::<char>::empty().push(s[0]) == one);
    lemma_lines_from_first(s.drop_first(), one);
}

/// The character sequences held by a vector of character vectors.
pub open spec fn views(v: Seq<Vec<char>>) -> Seq<Seq<char>> {
    v.map_values(|x: Vec<char>| x@)
}

/// `str::lines` on a character vector.
pub fn lines_of(s: &[char]) -> (r: Vec<Vec<char>>)
    ensures
        views(r@) == lines(s@),
{
    let mut out: Vec<Vec<char>> = Vec::new();
    let mut cur: Vec<char> = Vec::new();
    let mut i: usize = 0;
    assert(s@.skip(0) == s@);
    assert(views(out@) =~= seq![]);
    while i < s.len()
        invariant
            i <= s.len(),
            views(out@) + lines_from(s@.skip(i as int), cur@) == lines(s@),
        decreases s.len() - i,
    {
        let ghost rest = s@.skip(i as int);
        assert(rest[0] == s@[i as int]);
        assert(rest.drop_first() == s@.skip(i + 1));
        if s[i] == '\n' {
            let mut line = cur;
            if line.len() > 0 && line[line.len() - 1] == '\r' {
                line.pop();
            }
            assert(line@ == strip_cr(cur@));
            let ghost before = views(out@);
            out.push(line);
            assert(views(out@) =~= before.push(strip_cr(cur@)));
            assert(before + (seq![strip_cr(cur@)] + lines_from(s@.skip(i + 1), seq![]))
                == before.push(strip_cr(cur@)) + lines_from(s@.skip(i + 1), seq![]));
            cur = Vec::new();
        } else {
            cur.push(s[i]);
        }
        i = i + 1;
    }
    assert(s@.skip(i as int).len() == 0);
    if cur.len() > 0 {
        let ghost before = views(out@);
        out.push(cur);
        assert(views(out@) =~= before.push(cur@));
    } else {
        assert(views(out@) + seq![] == views(out@));
    }
    out
}


/// `p` is a prefix of `s`.
pub open spec fn is_prefix(p: Seq<char>, s: Seq<char>) -> bool {
    p.len() <= s.len() && s.subrange(0, p.len() as int) == p
}

/// `p` occurs in `s` starting at index `i`.
pub open spec fn occurs_at(s: Seq<char>, p: Seq<char>, i: int) -> bool {
    0 <= i && i + p.len() <= s.len() && s.subrange(i, i + p.len()) == p
}

/// `str::contains` with a string pattern.
pub open spec fn contains_seq(s: Seq<char>, p: Seq<char>) -> bool {
    exists|i: int| occurs_at(s, p, i)
}

/// Compares `p` with the characters of `s` from index `i` on.
pub fn matches_at(s: &[char], p: &[char], i: usize) -> (b: bool)
    ensures
        b == occurs_at(s@, p@, i as int),
{
    if i > s.len() || p.len() > s.len() - i {
        return false;
    }
    let mut j: usize = 0;
    while j < p.len()
        invariant
            j <= p.len(),
            i + p.len() <= s.len(),
            forall|k: int| 0 <= k < j ==> s@[i + k] == p@[k],
        decreases p.len() - j,
    {
        if s[i + j] != p[j] {
            assert(s@.subrange(i as int, i + p.len())[j as int] != p@[j as int]);
            return false;
        }
        j = j + 1;
    }
    assert(s@.subrange(i as int, i + p.len()) =~= p@);
    true
}

/// `str::starts_with` with a string pattern.
pub fn starts_with(s: &[char], p: &[char]) -> (b: bool)
    ensures
        b == is_prefix(p@, s@),
{
    matches_at(s, p, 0)
}

/// `str::contains` with a string pattern.
pub fn contains(s: &[char], p: &[char]) -> (b: bool)
    ensures
        b == contains_seq(s@, p@),
{
    if p.len() > s.len() {
        return false;
    }
    let last = s.len() - p.len();
    let mut i: usize = 0;
    while i <= last
        invariant
            last == s.len() - p.len(),
            i <= last + 1,
            forall|k: int| 0 <= k < i ==> !occurs_at(s@, p@, k),
        decreases last + 1 - i,
    {
        if matches_at(s, p, i) {
            return true;
        }
        if i == last {
            return false;
        }
        i = i + 1;
    }
    false
}

/// `str::contains` with a character pattern.
pub fn contains_char(s: &[char], c: char) -> (b: bool)
    ensures
        b == s@.contains(c),
{
    let mut i: usize = 0;
    while i < s.len()
        invariant
            i <= s.len(),
            forall|k: int| 0 <= k < i ==> s@[k] != c,
        decreases s.len() - i,
    {
        if s[i] == c {
            return true;
        }
        i = i + 1;
    }
    false
}

/// The decimal digit for `d < 10`.
pub open spec fn digit_char(d: nat) -> char {
    if d == 0 {
        '0'
    } else if d == 1 {
        '1'
    } else if d == 2 {
        '2'
    } else if d == 3 {
        '3'
    } else if d == 4 {
        '4'
    } else if d == 5 {
        '5'
    } else if d == 6 {
        '6'
    } else if d == 7 {
        '7'
    } else if d == 8 {
        '8'
    } else {
        '9'
    }
}

/// The decimal notation of `n`, as `{}` writes an unsigned integer.
pub open spec fn decimal(n: nat) -> Seq<char>
    decreases n,
{
    if n < 10 {
        seq![digit_char(n)]
    } else {
        decimal(n / 10).push(digit_char(n % 10))
    }
}

/// `s` left-padded with zeros to at least `w` characters, as `{:0w}` does.
pub open spec fn zero_pad(s: Seq<char>, w: nat) -> Seq<char> {
    if s.len() < w {
        Seq::new((w - s.len()) as nat, |i: int| '0') + s
    } else {
        s
    }
}

pub fn digit_of(d: u64) -> (c: char)
    requires
        d < 10,
    ensures
        c == digit_char(d as nat),
{
    if d == 0 {
        '0'
    } else if d == 1 {
        '1'
    } else if d == 2 {
        '2'
    } else if d == 3 {
        '3'
    } else if d == 4 {
        '4'
    } else if d == 5 {
        '5'
    } else if d == 6 {
        '6'
    } else if d == 7 {
        '7'
    } else if d == 8 {
        '8'
    } else {
        '9'
    }
}

/// Appends the decimal notation of `n`.
pub fn push_decimal(out: &mut Vec<char>, n: u64)
    ensures
        final(out)@ == old(out)@ + decimal(n as nat),
    decreases n,
{
    if n < 10 {
        out.push(digit_of(n));
        assert(old(out)@.push(digit_char(n as nat)) == old(out)@ + seq![digit_char(n as nat)]);
    } else {
        push_decimal(out, n / 10);
        out.push(digit_of(n % 10));
        assert(old(out)@ + decimal((n / 10) as nat).push(digit_char((n % 10) as nat))
            == (old(out)@ + decimal((n / 10) as nat)).push(digit_char((n % 10) as nat)));
    }
}

/// Appends the decimal notation of `n`, left-padded with zeros to `w` characters.
pub fn push_padded(out: &mut Vec<char>, n: u64, w: usize)
    ensures
        final(out)@ == old(out)@ + zero_pad(decimal(n as nat), w as nat),
{
    let mut digits: Vec<char> = Vec::new();
    push_decimal(&mut digits, n);
    assert(digits@ == decimal(n as nat));
    let ghost start = out@;
    let mut k: usize = digits.len();
    while k < w
        invariant
            digits.len() <= k <= w || (k == digits.len() && k >= w),
            out@ == start + Seq::new((k - digits.len()) as nat, |i: int| '0'),
        decreases w - k,
    {
        out.push('0');
        assert(start + Seq::new((k + 1 - digits.len()) as nat, |i: int| '0')
            =~= (start + Seq::new((k - digits.len()) as nat, |i: int| '0')).push('0'));
        k = k + 1;
    }
    let ghost mid = out@;
    let mut i: usize = 0;
    while i < digits.len()
        invariant
            i <= digits.len(),
            out@ == mid + digits@.take(i as int),
        decreases digits.len() - i,
    {
        out.push(digits[i]);
        assert(digits@.take(i + 1) == digits@.take(i as int).push(digits@[i as int]));
        i = i + 1;
    }
    assert(digits@.take(digits.len() as int) == digits@);
    if digits.len() < w {
        assert(out@ =~= start + zero_pad(decimal(n as nat), w as nat));
    } else {
        assert(Seq::new(0nat, |i: int| '0') + digits@ =~= digits@);
        assert(out@ =~= start + zero_pad(decimal(n as nat), w as nat));
    }
}

/// Appends the characters of `t`.
pub fn push_all(out: &mut Vec<char>, t: &[char])
    ensures
        final(out)@ == old(out)@ + t@,
{
    let mut i: usize = 0;
    while i < t.len()
        invariant
            i <= t.len(),
            out@ == old(out)@ + t@.take(i as int),
        decreases t.len() - i,
    {
        out.push(t[i]);
        assert(old(out)@ + t@.take(i + 1) == (old(out)@ + t@.take(i as int)).push(t@[i as int]));
        i = i + 1;
    }
    assert(t@.take(t.len() as int) == t@);
}

/// Appends the characters of a string slice.
pub fn push_str(out: &mut Vec<char>, t: &str)
    ensures
        final(out)@ == old(out)@ + t@,
{
    let v = chars_of(t);
    push_all(out, &v);
}

pub open spec fn is_digit(c: char) -> bool {
    '0' <= c && c <= '9'
}

pub open spec fn digit_value(c: char) -> nat {
    (c as int - '0' as int) as nat
}

/// The number that a string of decimal digits denotes.
pub open spec fn digits_value(s: Seq<char>) -> nat
    decreases s.len(),
{
    if s.len() == 0 {
        0
    } else {
        digits_value(s.drop_last()) * 10 + digit_value(s.last())
    }
}

pub open spec fn all_digits(s: Seq<char>) -> bool {
    forall|i: int| 0 <= i < s.len() ==> is_digit(#[trigger] s[i])
}

/// Digits of an unsigned integer, after an optional `+`.
pub open spec fn unsigned_body(s: Seq<char>) -> Seq<char> {
    if s.len() > 0 && s[0] == '+' {
        s.drop_first()
    } else {
        s
    }
}

/// `str::parse::<u64>`.
pub open spec fn parse_u64_spec(s: Seq<char>) -> Option<u64> {
    let b = unsigned_body(s);
    if b.len() > 0 && all_digits(b) && digits_value(b) <= u64::MAX {
        Some(digits_value(b) as u64)
    } else {
        None
    }
}

/// `str::parse::<i32>`.
pub open spec fn parse_i32_spec(s: Seq<char>) -> Option<i32> {
    if s.len() > 0 && s[0] == '-' {
        let b = s.drop_first();
        if b.len() > 0 && all_digits(b) && digits_value(b) <= 0x8000_0000 {
            Some((0 - digits_value(b)) as i32)
        } else {
            None
        }
    } else {
        let b = unsigned_body(s);
        if b.len() > 0 && all_digits(b) && digits_value(b) <= 0x7fff_ffff {
            Some(digits_value(b) as i32)
        } else {
            None
        }
    }
}

proof fn lemma_digits_value_prefix(s: Seq<char>, i: int)
    requires
        0 <= i <= s.len(),
    ensures
        digits_value(s.take(i)) <= digits_value(s),
    decreases s.len(),
{
    if i < s.len() {
        assert(s.drop_last().take(i) == s.take(i));
        lemma_digits_value_prefix(s.drop_last(), i);
    } else {
        assert(s.take(i) == s);
    }
}

/// Reads `s[lo..]` as a decimal number: `Some` when it is a non-empty run of
/// digits whose value is at most `limit`.
fn parse_digits(s: &[char], lo: usize, limit: u64) -> (r: Option<u64>)
    requires
        lo <= s.len(),
        limit >= 9,
    ensures
        ({
            let b = s@.skip(lo as int);
            r == (if b.len() > 0 && all_digits(b) && digits_value(b) <= limit {
                Some(digits_value(b) as u64)
            } else {
                None
            })
        }),
{
    let ghost b = s@.skip(lo as int);
    if lo == s.len() {
        return None;
    }
    let mut v: u64 = 0;
    let mut i: usize = lo;
    while i < s.len()
        invariant
            lo <= i <= s.len(),
            b == s@.skip(lo as int),
            v as nat == digits_value(b.take(i - lo)),
            v <= limit,
            limit >= 9,
            all_digits(b.take(i - lo)),
        decreases s.len() - i,
    {
        let c = s[i];
        assert(b.take(i + 1 - lo).drop_last() == b.take(i - lo));
        assert(b.take(i + 1 - lo).last() == c);
        if !('0' <= c && c <= '9') {
            assert(!all_digits(b)) by {
                assert(b[i - lo] == c);
            }
            return None;
        }
        let d = (c as u32 - '0' as u32) as u64;
        assert(d == digit_value(c));
        if v > (limit - d) / 10 {
            proof {
                lemma_digits_value_prefix(b, i + 1 - lo);
                assert(v * 10 + d > limit) by (nonlinear_arith)
                    requires v > (limit - d) / 10, d <= 9, d <= limit;
            }
            return None;
        }
        proof {
            assert(v * 10 + d <= limit) by (nonlinear_arith)
                requires v <= (limit - d) / 10, d <= limit;
        }
        v = v * 10 + d;
        assert(all_digits(b.take(i + 1 - lo))) by {
            assert forall|k: int| 0 <= k < i + 1 - lo implies is_digit(#[trigger] b.take(i + 1 - lo)[k]) by {
                if k < i - lo {
                    assert(b.take(i + 1 - lo)[k] == b.take(i - lo)[k]);
                }
            }
        }
        i = i + 1;
    }
    assert(b.take(s.len() - lo) == b);
    Some(v)
}

/// `str::parse::<u64>` on a character vector.
pub fn parse_u64(s: &[char]) -> (r: Option<u64>)
    ensures
        r == parse_u64_spec(s@),
{
    if s.len() > 0 && s[0] == '+' {
        assert(s@.skip(1) == s@.drop_first());
        parse_digits(s, 1, u64::MAX)
    } else {
        assert(s@.skip(0) == s@);
        parse_digits(s, 0, u64::MAX)
    }
}

/// `str::parse::<i32>` on a character vector.
pub fn parse_i32(s: &[char]) -> (r: Option<i32>)
    ensures
        r == parse_i32_spec(s@),
{
    if s.len() > 0 && s[0] == '-' {
        assert(s@.skip(1) == s@.drop_first());
        match parse_digits(s, 1, 0x8000_0000) {
            Some(v) => {
                let w: i64 = 0 - (v as i64);
                Some(w as i32)
            },
            None => None,
        }
    } else if s.len() > 0 && s[0] == '+' {
        assert(s@.skip(1) == s@.drop_first());
        match parse_digits(s, 1, 0x7fff_ffff) {
            Some(v) => Some(v as i32),
            None => None,
        }
    } else {
        assert(s@.skip(0) == s@);
        match parse_digits(s, 0, 0x7fff_ffff) {
            Some(v) => Some(v as i32),
            None => None,
        }
    }
}


/// An owned copy of a string slice.
pub fn owned(s: &str) -> (r: String)
    ensures
        r@ == s@,
{
    s.to_owned()
}

/// What `str::to_lowercase` returns for a text: its Unicode lowercase
/// mapping, character by character except that a capital sigma is lowered
/// according to its place in a word.
pub uninterp spec fn lowercase(s: Seq<char>) -> Seq<char>;

/// An ASCII character (below U+0080).
pub open spec fn is_ascii_char(c: char) -> bool {
    (c as u32) < 128
}

/// A character that Unicode gives no case mapping: CJK symbols and
/// punctuation, Hiragana and Katakana (U+3000 to U+30FF), CJK unified
/// ideographs (U+4E00 to U+9FFF), and full-width punctuation and digits
/// (U+FF01 to U+FF20).
pub open spec fn is_caseless(c: char) -> bool {
    ||| ('\u{3000}' <= c && c <= '\u{30ff}')
    ||| ('\u{4e00}' <= c && c <= '\u{9fff}')
    ||| ('\u{ff01}' <= c && c <= '\u{ff20}')
}

/// ASCII lowercasing of one character: `A` to `Z` become `a` to `z`.
pub open spec fn ascii_lower(c: char) -> char {
    if 'A' <= c && c <= 'Z' {
        ((c as u32) + 32) as char
    } else {
        c
    }
}

/// `str::to_lowercase` (std). Its result depends on the text alone and is
/// named by `lowercase`; the Unicode case tables behind it are not restated.
/// On text made of ASCII and caseless characters (`is_caseless`) the Unicode
/// mapping lowers `A` to `Z` one by one and keeps every other character, which
/// the contract states.
#[verifier::external_body]
pub(crate) fn to_lowercase(s: &str) -> (r: String)
    ensures
        r@ == lowercase(s@),
        (forall|i: int| 0 <= i < s@.len() ==> is_ascii_char(#[trigger] s@[i]) || is_caseless(s@[i]))
            ==> r@ == s@.map_values(|c: char| ascii_lower(c)),
{
    s.to_lowercase()
}

/// The pieces joined, with `sep` between neighbours.
pub open spec fn join(ps: Seq<Seq<char>>, sep: Seq<char>) -> Seq<char>
    decreases ps.len(),
{
    if ps.len() == 0 {
        seq![]
    } else if ps.len() == 1 {
        ps[0]
    } else {
        join(ps.drop_last(), sep) + sep + ps.last()
    }
}


/// Character-wise equality of two vectors.
pub fn chars_eq(a: &[char], b: &[char]) -> (r: bool)
    ensures
        r == (a@ == b@),
{
    if a.len() != b.len() {
        return false;
    }
    let mut i: usize = 0;
    while i < a.len()
        invariant
            i <= a.len(),
            a.len() == b.len(),
            forall|k: int| 0 <= k < i ==> a@[k] == b@[k],
        decreases a.len() - i,
    {
        if a[i] != b[i] {
            return false;
        }
        i = i + 1;
    }
    assert(a@ =~= b@);
    true
}

/// Equality of two string slices.
pub fn str_eq(a: &str, b: &str) -> (r: bool)
    ensures
        r == (a@ == b@),
{
    let x = chars_of(a);
    let y = chars_of(b);
    chars_eq(&x, &y)
}


/// The texts held by a list of strings.
pub open spec fn string_views(v: Seq<String>) -> Seq<Seq<char>> {
    v.map_values(|x: String| x@)
}

/// Appends an owned copy of `s` to a list of strings.
pub fn push_string(v: &mut Vec<String>, s: &str)
    ensures
        string_views(final(v)@) == string_views(old(v)@).push(s@),
{
    v.push(owned(s));
    assert(string_views(v@) =~= string_views(old(v)@).push(s@));
}

/// The pieces of `rest` between occurrences of `sep`, given that the piece in
/// progress so far holds `cur` (`str::split` with a character).
pub open spec fn split_from(rest: Seq<char>, cur: Seq<char>, sep: char) -> Seq<Seq<char>>
    decreases rest.len(),
{
    if rest.len() == 0 {
        seq![cur]
    } else if rest[0] == sep {
        seq![cur] + split_from(rest.drop_first(), seq![], sep)
    } else {
        split_from(rest.drop_first(), cur.push(rest[0]), sep)
    }
}

/// `str::split` with a character: every piece, empty ones included.
pub open spec fn split_char(s: Seq<char>, sep: char) -> Seq<Seq<char>> {
    split_from(s, seq![], sep)
}

pub proof fn lemma_split_from_len(rest: Seq<char>, cur: Seq<char>, sep: char)
    ensures
        split_from(rest, cur, sep).len() >= 1,
    decreases rest.len(),
{
    if rest.len() > 0 {
        if rest[0] == sep {
            lemma_split_from_len(rest.drop_first(), seq![], sep);
        } else {
            lemma_split_from_len(rest.drop_first(), cur.push(rest[0]), sep);
        }
    }
}

/// `str::split` with a character, on a character vector.
pub fn split_chars(s: &[char], sep: char) -> (r: Vec<Vec<char>>)
    ensures
        views(r@) == split_char(s@, sep),
{
    let mut out: Vec<Vec<char>> = Vec::new();
    let mut cur: Vec<char> = Vec::new();
    let mut i: usize = 0;
    assert(s@.skip(0) == s@);
    assert(views(out@) =~= seq![]);
    while i < s.len()
        invariant
            i <= s.len(),
            views(out@) + split_from(s@.skip(i as int), cur@, sep) == split_char(s@, sep),
        decreases s.len() - i,
    {
        let ghost rest = s@.skip(i as int);
        assert(rest[0] == s@[i as int]);
        assert(rest.drop_first() == s@.skip(i + 1));
        if s[i] == sep {
            let ghost before = views(out@);
            let ghost c = cur@;
            out.push(cur);
            assert(views(out@) =~= before.push(c));
            assert(before + (seq![c] + split_from(s@.skip(i + 1), seq![], sep))
                == before.push(c) + split_from(s@.skip(i + 1), seq![], sep));
            cur = Vec::new();
        } else {
            cur.push(s[i]);
        }
        i = i + 1;
    }
    assert(s@.skip(i as int).len() == 0);
    let ghost before = views(out@);
    let ghost c = cur@;
    out.push(cur);
    assert(views(out@) =~= before.push(c));
    out
}

/// First index from `i` on where `p` occurs in `s`.
pub open spec fn find_from(s: Seq<char>, p: Seq<char>, i: int) -> Option<int>
    decreases s.len() + 1 - i,
{
    if i < 0 || i + p.len() > s.len() {
        None
    } else if occurs_at(s, p, i) {
        Some(i)
    } else {
        find_from(s, p, i + 1)
    }
}

/// `str::find` with a string pattern: the first place where `p` occurs.
pub open spec fn find_seq(s: Seq<char>, p: Seq<char>) -> Option<int> {
    find_from(s, p, 0)
}

/// `str::find` on character vectors.
pub fn find(s: &[char], p: &[char]) -> (r: Option<usize>)
    ensures
        r matches Some(i) ==> (find_seq(s@, p@) == Some(i as int) && occurs_at(s@, p@, i as int)),
        r is None ==> find_seq(s@, p@) is None,
{
    if p.len() > s.len() {
        return None;
    }
    let last = s.len() - p.len();
    let mut i: usize = 0;
    while i <= last
        invariant
            last == s.len() - p.len(),
            i <= last + 1,
            find_seq(s@, p@) == find_from(s@, p@, i as int),
        decreases last + 1 - i,
    {
        if matches_at(s, p, i) {
            return Some(i);
        }
        if i == last {
            assert(find_from(s@, p@, i + 1) is None);
            return None;
        }
        i = i + 1;
    }
    None
}

/// The characters of `s` from index `lo` on.
pub fn tail_from(s: &[char], lo: usize) -> (r: Vec<char>)
    requires
        lo <= s.len(),
    ensures
        r@ == s@.skip(lo as int),
{
    let mut r: Vec<char> = Vec::new();
    let mut i: usize = lo;
    while i < s.len()
        invariant
            lo <= i <= s.len(),
            r@ == s@.subrange(lo as int, i as int),
        decreases s.len() - i,
    {
        r.push(s[i]);
        assert(s@.subrange(lo as int, i + 1) == s@.subrange(lo as int, i as int).push(s@[i as int]));
        i = i + 1;
    }
    r
}

/// The first word of `s` (`str::split_whitespace().next()`): what follows the
/// leading white space, up to the next white space.
pub open spec fn first_word(s: Seq<char>) -> Option<Seq<char>> {
    let t = trim_start(s);
    if t.len() == 0 {
        None
    } else {
        Some(word_prefix(t))
    }
}

/// The longest prefix without white space.
pub open spec fn word_prefix(t: Seq<char>) -> Seq<char>
    decreases t.len(),
{
    if t.len() == 0 || is_ws(t[0]) {
        seq![]
    } else {
        seq![t[0]] + word_prefix(t.drop_first())
    }
}

proof fn lemma_word_prefix_take(t: Seq<char>, j: int)
    requires
        0 <= j <= t.len(),
        forall|k: int| 0 <= k < j ==> !is_ws(#[trigger] t[k]),
        j == t.len() || is_ws(t[j]),
    ensures
        word_prefix(t) == t.take(j),
    decreases j,
{
    if j > 0 {
        let d = t.drop_first();
        assert forall|k: int| 0 <= k < j - 1 implies !is_ws(#[trigger] d[k]) by {
            assert(d[k] == t[k + 1]);
        }
        if j < t.len() {
            assert(d[j - 1] == t[j]);
        }
        lemma_word_prefix_take(d, j - 1);
        assert(seq![t[0]] + d.take(j - 1) == t.take(j));
    }
}

/// The first word of a character vector.
pub fn first_word_of(s: &[char]) -> (r: Option<Vec<char>>)
    ensures
        r matches Some(v) ==> first_word(s@) == Some(v@),
        r is None ==> first_word(s@) is None,
{
    let mut lo: usize = 0;
    while lo < s.len() && is_whitespace(s[lo])
        invariant
            lo <= s.len(),
            forall|j: int| 0 <= j < lo ==> is_ws(#[trigger] s@[j]),
        decreases s.len() - lo,
    {
        lo = lo + 1;
    }
    proof {
        lemma_trim_start_skip(s@, lo as int);
        let rest = s@.subrange(lo as int, s@.len() as int);
        if lo < s.len() {
            assert(rest[0] == s@[lo as int]);
        }
        assert(trim_start(rest) == rest);
    }
    if lo == s.len() {
        return None;
    }
    let mut hi: usize = lo;
    while hi < s.len() && !is_whitespace(s[hi])
        invariant
            lo <= hi <= s.len(),
            forall|j: int| lo <= j < hi ==> !is_ws(#[trigger] s@[j]),
        decreases s.len() - hi,
    {
        hi = hi + 1;
    }
    let ghost t = s@.subrange(lo as int, s@.len() as int);
    proof {
        assert forall|k: int| 0 <= k < hi - lo implies !is_ws(#[trigger] t[k]) by {
            assert(t[k] == s@[lo + k]);
        }
        if hi < s.len() {
            assert(t[hi - lo] == s@[hi as int]);
        }
        lemma_word_prefix_take(t, hi - lo);
        assert(t.take(hi - lo) == s@.subrange(lo as int, hi as int));
    }
    let mut v: Vec<char> = Vec::new();
    let mut i: usize = lo;
    while i < hi
        invariant
            lo <= i <= hi <= s.len(),
            v@ == s@.subrange(lo as int, i as int),
        decreases hi - i,
    {
        v.push(s[i]);
        assert(s@.subrange(lo as int, i + 1) == s@.subrange(lo as int, i as int).push(s@[i as int]));
        i = i + 1;
    }
    Some(v)
}

} // verus!
