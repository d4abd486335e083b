use vstd::prelude::*;
use crate::text::{
    occurs_at,
    chars_of, is_blank, lemma_lines_first, lemma_lines_no_newline, lemma_lines_single, lemma_trim_bounds, lemma_trim_fixed, lines_of,
    no_newline, push_char, string_of, trim_chars, views, is_ws, is_whitespace, contains, contains_char, contains_seq, is_prefix, join, lines, lowercase, owned, push_all,
    starts_with, to_lowercase, trim,
};

verus! {

/// Punctuation restoration settings.
pub struct PunctConfig {
    pub model_path: Option<String>,
    pub enabled: bool,
}

impl Default for PunctConfig {
    fn default() -> (r: Self)
        ensures
            r.enabled == false,
            r.model_path matches Some(p) && p@ == "./models/punct-ct-transformer"@,
    {
        PunctConfig { model_path: Some(owned("./models/punct-ct-transformer")), enabled: false }
    }
}

/// Restores sentence punctuation in raw recognised text.
pub struct PunctRestorer {
    config: PunctConfig,
}

impl View for PunctRestorer {
    type V = PunctConfig;

    closed spec fn view(&self) -> PunctConfig {
        self.config
    }
}

/// Characters that already close a sentence or clause (ASCII and full-width).
pub open spec fn is_sentence_mark(c: char) -> bool {
    ||| c == '.'
    ||| c == '!'
    ||| c == '?'
    ||| c == ','
    ||| c == ';'
    ||| c == ':'
    ||| c == '\u{3002}'
    ||| c == '\u{ff01}'
    ||| c == '\u{ff1f}'
    ||| c == '\u{ff0c}'
    ||| c == '\u{ff1b}'
    ||| c == '\u{ff1a}'
}

/// English words that open a question.
pub open spec fn question_word(k: int) -> Seq<char> {
    if k == 0 { "what"@ }
    else if k == 1 { "when"@ }
    else if k == 2 { "where"@ }
    else if k == 3 { "who"@ }
    else if k == 4 { "why"@ }
    else if k == 5 { "how"@ }
    else if k == 6 { "is"@ }
    else if k == 7 { "are"@ }
    else if k == 8 { "do"@ }
    else if k == 9 { "does"@ }
    else if k == 10 { "did"@ }
    else if k == 11 { "can"@ }
    else if k == 12 { "could"@ }
    else if k == 13 { "will"@ }
    else if k == 14 { "would"@ }
    else if k == 15 { "shall"@ }
    else if k == 16 { "should"@ }
    else if k == 17 { "have"@ }
    else if k == 18 { "has"@ }
    else if k == 19 { "had"@ }
    else if k == 20 { "may"@ }
    else if k == 21 { "might"@ }
    else { "must"@ }
}

/// Chinese characters that mark a question.
pub open spec fn question_particle(k: int) -> char {
    if k == 0 { '\u{5417}' }
    else if k == 1 { '\u{5462}' }
    else if k == 2 { '\u{5427}' }
    else if k == 3 { '\u{4e48}' }
    else if k == 4 { '\u{5565}' }
    else if k == 5 { '\u{8c01}' }
    else if k == 6 { '\u{54ea}' }
    else { '\u{600e}' }
}

/// The text looks like a question: its lowercase form starts with a question
/// word or holds one after a space, or the text holds a Chinese question particle.
pub open spec fn looks_like_question(t: Seq<char>) -> bool {
    ||| exists|k: int| 0 <= k < 23 && (is_prefix(question_word(k), lowercase(t))
            || contains_seq(lowercase(t), seq![' '] + question_word(k)))
    ||| exists|k: int| 0 <= k < 8 && t.contains(question_particle(k))
}

/// A CJK unified ideograph (U+4E00 to U+9FFF).
pub open spec fn is_cjk(c: char) -> bool {
    '\u{4e00}' <= c && c <= '\u{9fff}'
}

pub open spec fn has_cjk(t: Seq<char>) -> bool {
    exists|i: int| 0 <= i < t.len() && is_cjk(#[trigger] t[i])
}

/// A trimmed, non-empty line with a closing mark: kept when it already ends
/// with one, else given a question mark or a full stop (full-width when the
/// line holds Chinese).
pub open spec fn close_line(line: Seq<char>) -> Seq<char> {
    if is_sentence_mark(line.last()) {
        line
    } else if looks_like_question(line) {
        line.push(if has_cjk(line) { '\u{ff1f}' } else { '?' })
    } else {
        line.push(if has_cjk(line) { '\u{3002}' } else { '.' })
    }
}

/// No two white-space characters stand next to each other.
pub open spec fn no_double_ws(s: Seq<char>) -> bool {
    forall|i: int| 0 <= i < s.len() - 1 ==> !(is_ws(#[trigger] s[i]) && is_ws(s[i + 1]))
}

/// The pieces of a line between natural pauses, runs of two or more
/// white-space characters, given that the piece in progress holds `cur`.
pub open spec fn pause_split_from(rest: Seq<char>, cur: Seq<char>) -> Seq<Seq<char>>
    decreases rest.len(),
{
    if rest.len() == 0 {
        seq![cur]
    } else if rest.len() >= 2 && is_ws(rest[0]) && is_ws(rest[1]) {
        seq![cur] + pause_split_from(rest.drop_first(), seq![])
    } else {
        pause_split_from(rest.drop_first(), cur.push(rest[0]))
    }
}

/// A line cut at its pauses.
pub open spec fn pause_pieces(line: Seq<char>) -> Seq<Seq<char>> {
    pause_split_from(line, seq![])
}

/// The pieces of all the lines, in order.
pub open spec fn all_pieces(ls: Seq<Seq<char>>) -> Seq<Seq<char>>
    decreases ls.len(),
{
    if ls.len() == 0 {
        seq![]
    } else {
        all_pieces(ls.drop_last()) + pause_pieces(ls.last())
    }
}

pub open spec fn is_lower_ascii(c: char) -> bool {
    'a' <= c && c <= 'z'
}

/// The piece with its first letter capitalised (`a` to `z` become `A` to `Z`).
pub open spec fn capitalize(p: Seq<char>) -> Seq<char> {
    if p.len() > 0 && is_lower_ascii(p[0]) {
        p.update(0, ((p[0] as u32) - 32) as char)
    } else {
        p
    }
}

/// A trimmed, non-empty piece as a sentence: closed, then capitalised.
pub open spec fn sentence(t: Seq<char>) -> Seq<char> {
    capitalize(close_line(t))
}

/// The non-blank pieces, trimmed and made sentences, in order.
pub open spec fn closed_lines(ls: Seq<Seq<char>>) -> Seq<Seq<char>>
    decreases ls.len(),
{
    if ls.len() == 0 {
        seq![]
    } else {
        let rest = closed_lines(ls.drop_last());
        let t = trim(ls.last());
        if t.len() == 0 {
            rest
        } else {
            rest.push(sentence(t))
        }
    }
}

/// The rule-based punctuation of a text: the trimmed text is cut at line
/// breaks and at runs of two or more white-space characters; every non-blank
/// piece, trimmed, becomes a sentence (closed with a mark, first letter
/// capitalised); the sentences are joined by single spaces.
pub open spec fn punctuated(text: Seq<char>) -> Seq<char> {
    join(closed_lines(all_pieces(lines(trim(text)))), seq![' '])
}

fn question_word_str(k: usize) -> (r: &'static str)
    requires
        k < 23,
    ensures
        r@ == question_word(k as int),
{
    if k == 0 { "what" }
    else if k == 1 { "when" }
    else if k == 2 { "where" }
    else if k == 3 { "who" }
    else if k == 4 { "why" }
    else if k == 5 { "how" }
    else if k == 6 { "is" }
    else if k == 7 { "are" }
    else if k == 8 { "do" }
    else if k == 9 { "does" }
    else if k == 10 { "did" }
    else if k == 11 { "can" }
    else if k == 12 { "could" }
    else if k == 13 { "will" }
    else if k == 14 { "would" }
    else if k == 15 { "shall" }
    else if k == 16 { "should" }
    else if k == 17 { "have" }
    else if k == 18 { "has" }
    else if k == 19 { "had" }
    else if k == 20 { "may" }
    else if k == 21 { "might" }
    else { "must" }
}

fn question_particle_char(k: usize) -> (r: char)
    requires
        k < 8,
    ensures
        r == question_particle(k as int),
{
    if k == 0 { '\u{5417}' }
    else if k == 1 { '\u{5462}' }
    else if k == 2 { '\u{5427}' }
    else if k == 3 { '\u{4e48}' }
    else if k == 4 { '\u{5565}' }
    else if k == 5 { '\u{8c01}' }
    else if k == 6 { '\u{54ea}' }
    else { '\u{600e}' }
}

/// Whether the text looks like a question.
pub fn is_question(text: &str) -> (b: bool)
    ensures
        b == looks_like_question(text@),
{
    let lower_s = to_lowercase(text);
    let lower = chars_of(lower_s.as_str());
    let mut k: usize = 0;
    while k < 23
        invariant
            lower@ == lowercase(text@),
            forall|j: int| 0 <= j < k ==> !(is_prefix(question_word(j), lowercase(text@))
                || contains_seq(lowercase(text@), seq![' '] + question_word(j))),
        decreases 23 - k,
    {
        let word = chars_of(question_word_str(k));
        let mut spaced: Vec<char> = Vec::new();
        spaced.push(' ');
        push_all(&mut spaced, &word);
        assert(spaced@ == seq![' '] + question_word(k as int));
        if starts_with(&lower, &word) || contains(&lower, &spaced) {
            return true;
        }
        k = k + 1;
    }
    let t = chars_of(text);
    let mut k: usize = 0;
    while k < 8
        invariant
            t@ == text@,
            forall|j: int| 0 <= j < 23 ==> !(is_prefix(question_word(j), lowercase(text@))
                || contains_seq(lowercase(text@), seq![' '] + question_word(j))),
            forall|j: int| 0 <= j < k ==> !text@.contains(question_particle(j)),
        decreases 8 - k,
    {
        if contains_char(&t, question_particle_char(k)) {
            return true;
        }
        k = k + 1;
    }
    false
}

fn has_cjk_chars(t: &[char]) -> (b: bool)
    ensures
        b == has_cjk(t@),
{
    let mut i: usize = 0;
    while i < t.len()
        invariant
            i <= t.len(),
            forall|j: int| 0 <= j < i ==> !is_cjk(#[trigger] t@[j]),
        decreases t.len() - i,
    {
        if '\u{4e00}' <= t[i] && t[i] <= '\u{9fff}' {
            return true;
        }
        i = i + 1;
    }
    false
}

/// Whether the text holds a Chinese (CJK unified) character.
pub fn contains_chinese(text: &str) -> (b: bool)
    ensures
        b == has_cjk(text@),
{
    let t = chars_of(text);
    has_cjk_chars(&t)
}


fn is_sentence_mark_char(c: char) -> (b: bool)
    ensures
        b == is_sentence_mark(c),
{
    c == '.' || c == '!' || c == '?' || c == ',' || c == ';' || c == ':' || c == '\u{3002}'
        || c == '\u{ff01}' || c == '\u{ff1f}' || c == '\u{ff0c}' || c == '\u{ff1b}' || c == '\u{ff1a}'
}

fn ascii_upper(c: char) -> (u: char)
    requires
        is_lower_ascii(c),
    ensures
        u == ((c as u32) - 32) as char,
{
    let b: u8 = ((c as u32) - 32) as u8;
    b as char
}

/// Makes one trimmed, non-empty piece a sentence.
fn sentence_chars(line: &[char]) -> (r: Vec<char>)
    requires
        line@.len() > 0,
    ensures
        r@ == sentence(line@),
{
    let mut r: Vec<char> = Vec::new();
    push_all(&mut r, line);
    assert(r@ == line@);
    if !is_sentence_mark_char(line[line.len() - 1]) {
        let as_string = string_of(line);
        let zh = has_cjk_chars(line);
        if is_question(as_string.as_str()) {
            r.push(if zh { '\u{ff1f}' } else { '?' });
        } else {
            r.push(if zh { '\u{3002}' } else { '.' });
        }
    }
    assert(r@ == close_line(line@));
    let c = r[0];
    if 'a' <= c && c <= 'z' {
        let u = ascii_upper(c);
        r.set(0, u);
    }
    r
}

/// Cuts a line at its pauses (`pause_pieces`).
fn pause_split(line: &[char]) -> (r: Vec<Vec<char>>)
    ensures
        views(r@) == pause_pieces(line@),
{
    let mut out: Vec<Vec<char>> = Vec::new();
    let mut cur: Vec<char> = Vec::new();
    let mut i: usize = 0;
    assert(line@.skip(0) == line@);
    assert(views(out@) =~= Seq::<Seq<char>>::empty());
    while i < line.len()
        invariant
            i <= line.len(),
            views(out@) + pause_split_from(line@.skip(i as int), cur@) == pause_pieces(line@),
        decreases line.len() - i,
    {
        let ghost rest = line@.skip(i as int);
        assert(rest[0] == line@[i as int]);
        assert(rest.drop_first() == line@.skip(i + 1));
        let ghost before = views(out@);
        if i + 1 < line.len() && is_whitespace(line[i]) && is_whitespace(line[i + 1]) {
            assert(rest[1] == line@[i + 1]);
            let ghost c = cur@;
            out.push(cur);
            cur = Vec::new();
            assert(views(out@) =~= before.push(c));
            assert(pause_split_from(rest, c) == seq![c] + pause_split_from(rest.drop_first(), seq![]));
            assert(before + (seq![c] + pause_split_from(rest.drop_first(), seq![]))
                =~= before.push(c) + pause_split_from(rest.drop_first(), seq![]));
            assert(cur@ =~= Seq::<char>::empty());
        } else {
            let ghost c = cur@;
            cur.push(line[i]);
            assert(pause_split_from(rest, c) == pause_split_from(rest.drop_first(), c.push(rest[0])));
        }
        i = i + 1;
    }
    let ghost before = views(out@);
    let ghost c = cur@;
    assert(line@.skip(i as int).len() == 0);
    assert(pause_split_from(line@.skip(i as int), c) == seq![c]);
    out.push(cur);
    assert(views(out@) =~= before + seq![c]);
    out
}

/// Each piece followed by one space.
pub open spec fn spaced(ps: Seq<Seq<char>>) -> Seq<char>
    decreases ps.len(),
{
    if ps.len() == 0 {
        seq![]
    } else {
        spaced(ps.drop_last()) + ps.last() + seq![' ']
    }
}

/// The shape of a sentence: non-empty, starting with a character that is
/// neither white space nor a lowercase ASCII letter, ending with a sentence
/// mark, and without two white-space characters in a row.
pub open spec fn well_closed(p: Seq<char>) -> bool {
    &&& p.len() > 0
    &&& !is_ws(p[0])
    &&& !is_lower_ascii(p[0])
    &&& is_sentence_mark(p.last())
    &&& no_double_ws(p)
}

proof fn lemma_pause_split_shape(rest: Seq<char>, cur: Seq<char>)
    requires
        no_double_ws(cur),
        cur.len() > 0 && is_ws(cur.last()) ==> !(rest.len() > 0 && is_ws(rest[0])),
    ensures
        pause_split_from(rest, cur).len() > 0,
        forall|k: int| 0 <= k < pause_split_from(rest, cur).len() ==> no_double_ws(#[trigger] pause_split_from(rest, cur)[k]),
        no_newline(cur) && no_newline(rest) ==>
            forall|k: int| 0 <= k < pause_split_from(rest, cur).len() ==> no_newline(#[trigger] pause_split_from(rest, cur)[k]),
        cur.len() > 0 ==> pause_split_from(rest, cur)[0].len() > 0 && pause_split_from(rest, cur)[0][0] == cur[0],
    decreases rest.len(),
{
    let ps = pause_split_from(rest, cur);
    if rest.len() == 0 {
        assert(ps == seq![cur]);
    } else {
        let tail = rest.drop_first();
        assert(no_newline(rest) ==> no_newline(tail)) by {
            if no_newline(rest) {
                assert forall|i: int| 0 <= i < tail.len() implies #[trigger] tail[i] != '\n' by {
                    assert(tail[i] == rest[i + 1]);
                }
            }
        }
        if rest.len() >= 2 && is_ws(rest[0]) && is_ws(rest[1]) {
            lemma_pause_split_shape(tail, seq![]);
            let more = pause_split_from(tail, seq![]);
            assert(ps == seq![cur] + more);
            assert forall|k: int| 0 <= k < ps.len() implies no_double_ws(#[trigger] ps[k]) by {
                if k > 0 {
                    assert(ps[k] == more[k - 1]);
                }
            }
            if no_newline(cur) && no_newline(rest) {
                assert(no_newline(Seq::<char>::empty()));
                assert forall|k: int| 0 <= k < ps.len() implies no_newline(#[trigger] ps[k]) by {
                    if k > 0 {
                        assert(ps[k] == more[k - 1]);
                    }
                }
            }
        } else {
            let c2 = cur.push(rest[0]);
            assert(no_double_ws(c2)) by {
                assert forall|i: int| 0 <= i < c2.len() - 1 implies !(is_ws(#[trigger] c2[i]) && is_ws(c2[i + 1])) by {
                    if i < cur.len() - 1 {
                        assert(c2[i] == cur[i] && c2[i + 1] == cur[i + 1]);
                    } else {
                        assert(i == cur.len() - 1);
                        assert(c2[i] == cur.last());
                        assert(c2[i + 1] == rest[0]);
                    }
                }
            }
            assert(c2.last() == rest[0]);
            assert(is_ws(c2.last()) ==> !(tail.len() > 0 && is_ws(tail[0]))) by {
                if tail.len() > 0 {
                    assert(tail[0] == rest[1]);
                }
            }
            if no_newline(cur) && no_newline(rest) {
                assert forall|i: int| 0 <= i < c2.len() implies #[trigger] c2[i] != '\n' by {
                    if i < cur.len() {
                        assert(c2[i] == cur[i]);
                    }
                }
            }
            lemma_pause_split_shape(tail, c2);
            assert(c2[0] == (if cur.len() > 0 { cur[0] } else { rest[0] }));
        }
    }
}

proof fn lemma_pause_pieces_shape(line: Seq<char>)
    ensures
        pause_pieces(line).len() > 0,
        forall|k: int| 0 <= k < pause_pieces(line).len() ==> no_double_ws(#[trigger] pause_pieces(line)[k]),
        no_newline(line) ==> forall|k: int| 0 <= k < pause_pieces(line).len() ==> no_newline(#[trigger] pause_pieces(line)[k]),
        line.len() > 0 && !is_ws(line[0]) ==> pause_pieces(line)[0].len() > 0 && pause_pieces(line)[0][0] == line[0],
{
    assert(no_double_ws(Seq::<char>::empty()));
    assert(no_newline(Seq::<char>::empty()));
    lemma_pause_split_shape(line, seq![]);
    if line.len() > 0 && !is_ws(line[0]) {
        let c = Seq::<char>::empty().push(line[0]);
        assert(pause_pieces(line) == pause_split_from(line.drop_first(), c));
        assert(no_double_ws(c));
        assert(is_ws(c.last()) ==> false);
        lemma_pause_split_shape(line.drop_first(), c);
    }
}

/// A text without two white-space characters in a row is a single piece.
proof fn lemma_pause_single(rest: Seq<char>, cur: Seq<char>)
    requires
        no_double_ws(rest),
    ensures
        pause_split_from(rest, cur) == seq![cur + rest],
    decreases rest.len(),
{
    if rest.len() == 0 {
        assert(cur + rest == cur);
    } else {
        let tail = rest.drop_first();
        if rest.len() >= 2 {
            assert(!(is_ws(rest[0]) && is_ws(rest[1])));
        }
        assert(no_double_ws(tail)) by {
            assert forall|i: int| 0 <= i < tail.len() - 1 implies !(is_ws(#[trigger] tail[i]) && is_ws(tail[i + 1])) by {
                assert(tail[i] == rest[i + 1] && tail[i + 1] == rest[i + 2]);
            }
        }
        lemma_pause_single(tail, cur.push(rest[0]));
        assert(cur.push(rest[0]) + tail == cur + rest);
    }
}

proof fn lemma_all_pieces_shape(ls: Seq<Seq<char>>)
    ensures
        forall|k: int| 0 <= k < all_pieces(ls).len() ==> no_double_ws(#[trigger] all_pieces(ls)[k]),
        (forall|j: int| 0 <= j < ls.len() ==> no_newline(#[trigger] ls[j])) ==>
            forall|k: int| 0 <= k < all_pieces(ls).len() ==> no_newline(#[trigger] all_pieces(ls)[k]),
        ls.len() > 0 ==> all_pieces(ls).len() > 0 && all_pieces(ls)[0] == pause_pieces(ls[0])[0],
    decreases ls.len(),
{
    if ls.len() > 0 {
        let front = ls.drop_last();
        lemma_all_pieces_shape(front);
        lemma_pause_pieces_shape(ls.last());
        let a = all_pieces(front);
        let b = pause_pieces(ls.last());
        let all = all_pieces(ls);
        assert(all == a + b);
        assert forall|k: int| 0 <= k < all.len() implies no_double_ws(#[trigger] all[k]) by {
            if k < a.len() {
                assert(all[k] == a[k]);
            } else {
                assert(all[k] == b[k - a.len()]);
            }
        }
        if (forall|j: int| 0 <= j < ls.len() ==> no_newline(#[trigger] ls[j])) {
            assert forall|j: int| 0 <= j < front.len() implies no_newline(#[trigger] front[j]) by {
                assert(front[j] == ls[j]);
            }
            assert(no_newline(ls.last()));
            assert forall|k: int| 0 <= k < all.len() implies no_newline(#[trigger] all[k]) by {
                if k < a.len() {
                    assert(all[k] == a[k]);
                } else {
                    assert(all[k] == b[k - a.len()]);
                }
            }
        }
        if front.len() > 0 {
            assert(front[0] == ls[0]);
            assert(all[0] == a[0]);
        } else {
            assert(a.len() == 0);
            assert(ls.last() == ls[0]);
            assert(all[0] == b[0]);
        }
    }
}

proof fn lemma_sentence_shape(l: Seq<char>)
    requires
        trim(l).len() > 0,
    ensures
        no_double_ws(l) ==> well_closed(sentence(trim(l))),
        !is_ws(sentence(trim(l))[0]) && sentence(trim(l)).len() > 0,
        no_newline(l) ==> no_newline(sentence(trim(l))),
{
    let t = trim(l);
    let (lo, hi) = lemma_trim_bounds(l);
    let c = close_line(t);
    let s = sentence(t);
    assert(c[0] == t[0]);
    assert(c.len() >= t.len());
    assert(forall|i: int| 0 <= i < t.len() ==> #[trigger] c[i] == t[i]);
    assert(forall|i: int| 0 <= i < t.len() ==> #[trigger] t[i] == l[lo + i]);
    assert(is_sentence_mark(c.last()));
    assert(c.len() == t.len() || !is_ws(c.last()));
    if c.len() == 1 {
        assert(!is_lower_ascii(c[0]));
    }
    assert(s.len() == c.len());
    assert(!is_ws(s[0]) && !is_lower_ascii(s[0]));
    assert(s.last() == c.last());
    assert(forall|i: int| 1 <= i < c.len() ==> #[trigger] s[i] == c[i]);
    if no_double_ws(l) {
        assert forall|i: int| 0 <= i < s.len() - 1 implies !(is_ws(#[trigger] s[i]) && is_ws(s[i + 1])) by {
            if i >= 1 && i + 1 < t.len() {
                assert(s[i] == l[lo + i] && s[i + 1] == l[lo + i + 1]);
            } else if i >= 1 {
                assert(s[i + 1] == c.last());
            }
        }
    }
    if no_newline(l) {
        assert forall|i: int| 0 <= i < s.len() implies #[trigger] s[i] != '\n' by {
            if i >= 1 && i < t.len() {
                assert(s[i] == l[lo + i]);
            }
        }
    }
}

proof fn lemma_closed_lines_shape(ls: Seq<Seq<char>>)
    requires
        forall|k: int| 0 <= k < ls.len() ==> no_double_ws(#[trigger] ls[k]),
    ensures
        forall|k: int| 0 <= k < closed_lines(ls).len() ==> well_closed(#[trigger] closed_lines(ls)[k]),
        (forall|k: int| 0 <= k < ls.len() ==> no_newline(#[trigger] ls[k])) ==>
            forall|k: int| 0 <= k < closed_lines(ls).len() ==> no_newline(#[trigger] closed_lines(ls)[k]),
    decreases ls.len(),
{
    if ls.len() > 0 {
        let front = ls.drop_last();
        assert forall|k: int| 0 <= k < front.len() implies no_double_ws(#[trigger] front[k]) by {
            assert(front[k] == ls[k]);
        }
        let rest = closed_lines(front);
        lemma_closed_lines_shape(front);
        if (forall|k: int| 0 <= k < ls.len() ==> no_newline(#[trigger] ls[k])) {
            assert forall|k: int| 0 <= k < front.len() implies no_newline(#[trigger] front[k]) by {
                assert(front[k] == ls[k]);
            }
            assert(no_newline(ls.last()));
        }
        if trim(ls.last()).len() > 0 {
            assert(no_double_ws(ls.last()));
            lemma_sentence_shape(ls.last());
            let all = closed_lines(ls);
            assert(all == rest.push(sentence(trim(ls.last()))));
            assert forall|k: int| 0 <= k < all.len() implies well_closed(#[trigger] all[k]) by {
                if k < rest.len() {
                    assert(all[k] == rest[k]);
                }
            }
            if (forall|k: int| 0 <= k < ls.len() ==> no_newline(#[trigger] ls[k])) {
                assert forall|k: int| 0 <= k < all.len() implies no_newline(#[trigger] all[k]) by {
                    if k < rest.len() {
                        assert(all[k] == rest[k]);
                    }
                }
            }
        }
    }
}

proof fn lemma_join_shape(ps: Seq<Seq<char>>)
    requires
        ps.len() > 0,
        forall|k: int| 0 <= k < ps.len() ==> well_closed(#[trigger] ps[k]),
    ensures
        join(ps, seq![' ']).len() > 0,
        join(ps, seq![' '])[0] == ps[0][0],
        join(ps, seq![' ']).last() == ps.last().last(),
        no_double_ws(join(ps, seq![' '])),
        (forall|k: int| 0 <= k < ps.len() ==> no_newline(#[trigger] ps[k])) ==> no_newline(join(ps, seq![' '])),
    decreases ps.len(),
{
    let j = join(ps, seq![' ']);
    assert(well_closed(ps[0]));
    assert(well_closed(ps.last()));
    if ps.len() > 1 {
        let front = ps.drop_last();
        assert forall|k: int| 0 <= k < front.len() implies well_closed(#[trigger] front[k]) by {
            assert(front[k] == ps[k]);
        }
        lemma_join_shape(front);
        let jf = join(front, seq![' ']);
        let l = ps.last();
        assert(j == jf + seq![' '] + l);
        assert(j[0] == jf[0]);
        assert(front[0] == ps[0]);
        assert(jf.last() == front.last().last());
        assert(front.last() == ps[ps.len() - 2]);
        assert forall|i: int| 0 <= i < j.len() - 1 implies !(is_ws(#[trigger] j[i]) && is_ws(j[i + 1])) by {
            if i + 1 < jf.len() {
                assert(j[i] == jf[i] && j[i + 1] == jf[i + 1]);
            } else if i + 1 == jf.len() {
                assert(j[i] == jf.last());
            } else if i == jf.len() {
                assert(j[i + 1] == l[0]);
            } else {
                assert(j[i] == l[i - jf.len() - 1] && j[i + 1] == l[i - jf.len()]);
            }
        }
        if (forall|k: int| 0 <= k < ps.len() ==> no_newline(#[trigger] ps[k])) {
            assert forall|k: int| 0 <= k < front.len() implies no_newline(#[trigger] front[k]) by {
                assert(front[k] == ps[k]);
            }
            assert(no_newline(ps.last()));
            assert forall|i: int| 0 <= i < j.len() implies #[trigger] j[i] != '\n' by {
                if i < jf.len() {
                    assert(j[i] == jf[i]);
                } else if i > jf.len() {
                    assert(j[i] == ps.last()[i - jf.len() - 1]);
                }
            }
        }
    } else {
        assert(j == ps[0]);
    }
}

proof fn lemma_spaced_join(ps: Seq<Seq<char>>)
    requires
        ps.len() > 0,
    ensures
        spaced(ps) == join(ps, seq![' ']) + seq![' '],
    decreases ps.len(),
{
    if ps.len() == 1 {
        assert(ps.drop_last().len() == 0);
        assert(spaced(ps.drop_last()) == Seq::<char>::empty());
        assert(seq![] + ps.last() == ps[0]);
    } else {
        lemma_spaced_join(ps.drop_last());
    }
}

/// The rule-based fallback: the trimmed text is cut at line breaks and at
/// runs of two or more white-space characters; every non-blank piece, trimmed,
/// ends with a sentence mark (a question mark for question-like pieces, a full
/// stop otherwise, full-width when the piece holds Chinese) and starts with a
/// capital when it starts with a lowercase ASCII letter; the sentences are
/// joined by single spaces.
pub fn rule_based_punctuation(text: &str) -> (r: String)
    ensures
        r@ == punctuated(text@),
{
    let chars = chars_of(text);
    let t = trim_chars(&chars);
    if t.len() == 0 {
        assert(lines(t@) == Seq::<Seq<char>>::empty());
        assert(all_pieces(lines(t@)) == Seq::<Seq<char>>::empty());
        return String::new();
    }
    let ls = lines_of(&t);
    let ghost lv = views(ls@);
    let mut out: Vec<char> = Vec::new();
    let mut i: usize = 0;
    assert(lv.take(0) == Seq::<Seq<char>>::empty());
    while i < ls.len()
        invariant
            i <= ls.len(),
            lv == views(ls@),
            lv.len() == ls.len(),
            out@ == spaced(closed_lines(all_pieces(lv.take(i as int)))),
        decreases ls.len() - i,
    {
        let ghost a = all_pieces(lv.take(i as int));
        assert(lv.take(i + 1).drop_last() == lv.take(i as int));
        assert(lv.take(i + 1).last() == ls@[i as int]@);
        let pieces = pause_split(&ls[i]);
        let ghost pv = views(pieces@);
        assert(all_pieces(lv.take(i + 1)) == a + pv);
        let mut j: usize = 0;
        assert(a + pv.take(0) == a);
        while j < pieces.len()
            invariant
                j <= pieces.len(),
                pv == views(pieces@),
                out@ == spaced(closed_lines(a + pv.take(j as int))),
            decreases pieces.len() - j,
        {
            let ghost x = a + pv.take(j as int);
            assert(a + pv.take(j + 1) == x.push(pv[j as int]));
            assert(x.push(pv[j as int]).drop_last() == x);
            assert(pv[j as int] == pieces@[j as int]@);
            let ghost cl = closed_lines(x);
            let piece = trim_chars(&pieces[j]);
            if piece.len() > 0 {
                let sent = sentence_chars(&piece);
                let ghost prev = out@;
                push_all(&mut out, &sent);
                out.push(' ');
                assert(closed_lines(a + pv.take(j + 1)) == cl.push(sent@));
                assert(cl.push(sent@).drop_last() == cl);
                assert(out@ == prev + sent@ + seq![' ']);
            } else {
                assert(closed_lines(a + pv.take(j + 1)) == cl);
            }
            j = j + 1;
        }
        assert(pv.take(pieces.len() as int) == pv);
        i = i + 1;
    }
    assert(lv.take(ls.len() as int) == lv);
    let ghost ps = closed_lines(all_pieces(lv));
    proof {
        lemma_all_pieces_shape(lv);
        lemma_closed_lines_shape(all_pieces(lv));
        if ps.len() > 0 {
            lemma_spaced_join(ps);
            lemma_join_shape(ps);
            let j = join(ps, seq![' ']);
            assert(j.push(' ') == j + seq![' ']);
            assert((j + seq![' ']).drop_last() == j);
            assert(trim(j) == j) by { lemma_trim_fixed(j); }
            assert(trim(j + seq![' ']) == j);
        } else {
            assert(spaced(ps) == Seq::<char>::empty());
            assert(trim(Seq::<char>::empty()) == Seq::<char>::empty());
        }
    }
    let r = trim_chars(&out);
    string_of(&r)
}

proof fn lemma_closed_lines_nonempty(ls: Seq<Seq<char>>, k: int)
    requires
        0 <= k < ls.len(),
        trim(ls[k]).len() > 0,
    ensures
        closed_lines(ls).len() > 0,
    decreases ls.len(),
{
    if trim(ls.last()).len() == 0 {
        assert(k < ls.len() - 1);
        assert(ls.drop_last()[k] == ls[k]);
        lemma_closed_lines_nonempty(ls.drop_last(), k);
    }
}

/// Punctuation closes what it returns: a text with anything but white space
/// in it comes back as sentences, starting with a character that is neither
/// white space nor a lowercase ASCII letter and ending with a sentence mark; a
/// blank text comes back empty.
pub proof fn lemma_punctuation_closes_text(text: Seq<char>)
    ensures
        is_blank(text) ==> punctuated(text).len() == 0,
        !is_blank(text) ==> well_closed(punctuated(text)),
{
    let t = trim(text);
    lemma_trim_bounds(text);
    if is_blank(text) {
        assert(lines(t) == Seq::<Seq<char>>::empty());
        assert(all_pieces(lines(t)) == Seq::<Seq<char>>::empty());
        assert(closed_lines(all_pieces(lines(t))) == Seq::<Seq<char>>::empty());
    } else {
        lemma_lines_first(t);
        let ls = lines(t);
        lemma_all_pieces_shape(ls);
        lemma_pause_pieces_shape(ls[0]);
        let pcs = all_pieces(ls);
        lemma_trim_bounds(pcs[0]);
        assert(!is_blank(pcs[0]));
        lemma_closed_lines_nonempty(pcs, 0);
        lemma_closed_lines_shape(pcs);
        lemma_join_shape(closed_lines(pcs));
    }
}

/// The rule-based punctuation is settled after one pass: applying it to its
/// own output changes nothing.
pub proof fn lemma_punctuation_idempotent(text: Seq<char>)
    ensures
        punctuated(punctuated(text)) == punctuated(text),
{
    let ls = lines(trim(text));
    let ps = closed_lines(all_pieces(ls));
    let y = punctuated(text);
    lemma_lines_no_newline(trim(text));
    lemma_all_pieces_shape(ls);
    lemma_closed_lines_shape(all_pieces(ls));
    if ps.len() == 0 {
        assert(y == Seq::<char>::empty());
        assert(trim(y) == y);
        assert(lines(y) == Seq::<Seq<char>>::empty());
        assert(all_pieces(lines(y)) == Seq::<Seq<char>>::empty());
    } else {
        lemma_join_shape(ps);
        assert(well_closed(ps.last()));
        assert(well_closed(ps[0]));
        lemma_trim_fixed(y);
        lemma_lines_single(y);
        let one = seq![y];
        assert(one.drop_last() == Seq::<Seq<char>>::empty());
        assert(one.last() == y);
        lemma_pause_single(y, seq![]);
        assert(Seq::<char>::empty() + y == y);
        assert(pause_pieces(y) == seq![y]);
        assert(all_pieces(one.drop_last()) == Seq::<Seq<char>>::empty());
        assert(all_pieces(one) == all_pieces(one.drop_last()) + pause_pieces(one.last()));
        assert(all_pieces(one) =~= seq![y]);
        assert(all_pieces(one) == one);
        assert(closed_lines(one.drop_last()) == Seq::<Seq<char>>::empty());
        assert(close_line(y) == y);
        assert(sentence(y) == y);
        assert(Seq::<Seq<char>>::empty().push(sentence(y)) == seq![sentence(y)]);
        assert(closed_lines(one) == seq![y]);
    }
}

/// A text whose lowercase form starts with an English question word, or holds
/// one right after a space, is a question.
pub proof fn lemma_question_word_makes_question(t: Seq<char>, k: int, i: int)
    requires
        0 <= k < 23,
        i == 0 && is_prefix(question_word(k), lowercase(t))
            || i > 0 && occurs_at(lowercase(t), seq![' '] + question_word(k), i - 1),
    ensures
        looks_like_question(t),
{
    if i > 0 {
        assert(contains_seq(lowercase(t), seq![' '] + question_word(k)));
    }
}

/// A Chinese question particle anywhere in a text makes it a question.
pub proof fn lemma_particle_makes_question(t: Seq<char>, i: int, k: int)
    requires
        0 <= k < 8,
        0 <= i < t.len(),
        t[i] == question_particle(k),
    ensures
        looks_like_question(t),
{
    assert(t.contains(question_particle(k)));
}

/// A one-sentence text (trimmed, on one line, without pauses) that does not
/// end with a sentence mark and holds a Chinese question particle anywhere is
/// closed with a question mark, full-width when it holds Chinese, and only
/// its first letter may change.
pub proof fn lemma_particle_sentence_gets_question_mark(t: Seq<char>, i: int, k: int)
    requires
        0 <= k < 8,
        0 <= i < t.len(),
        t[i] == question_particle(k),
        !is_ws(t[0]) && !is_ws(t.last()),
        no_newline(t),
        no_double_ws(t),
        !is_sentence_mark(t.last()),
    ensures
        punctuated(t) == capitalize(t.push(if has_cjk(t) { '\u{ff1f}' } else { '?' })),
        has_cjk(t) ==> punctuated(t).last() == '\u{ff1f}',
{
    lemma_particle_makes_question(t, i, k);
    lemma_trim_fixed(t);
    lemma_lines_single(t);
    let one = seq![t];
    assert(one.drop_last() == Seq::<Seq<char>>::empty());
    assert(all_pieces(one.drop_last()) == Seq::<Seq<char>>::empty());
    lemma_pause_single(t, seq![]);
    assert(Seq::<char>::empty() + t == t);
    assert(all_pieces(one) == all_pieces(one.drop_last()) + pause_pieces(one.last()));
    assert(all_pieces(one) =~= one);
    assert(closed_lines(one.drop_last()) == Seq::<Seq<char>>::empty());
    assert(Seq::<Seq<char>>::empty().push(sentence(t)) == seq![sentence(t)]);
    assert(closed_lines(one) == seq![sentence(t)]);
    let c = t.push(if has_cjk(t) { '\u{ff1f}' } else { '?' });
    assert(close_line(t) == c);
    assert(c.len() >= 2);
    assert(capitalize(c).last() == c.last());
}

impl PunctRestorer {
    pub fn new(config: PunctConfig) -> (r: Self)
        ensures
            r@ == config,
    {
        PunctRestorer { config }
    }

    /// Adds punctuation to raw recognised text: the text unchanged when the
    /// restorer is disabled, its rule-based punctuation otherwise.
    pub fn add_punctuation(&self, text: &str) -> (r: Result<String, String>)
        ensures
            r matches Ok(s) && s@ == (if self@.enabled { punctuated(text@) } else { text@ }),
    {
        if !self.config.enabled {
            return Ok(owned(text));
        }
        Ok(rule_based_punctuation(text))
    }
}

} // verus!
