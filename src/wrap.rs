use crate::text::{is_white_space, is_whitespace_char, string_of};
use vstd::prelude::*;

verus! {

/// How words are measured. Advances are in font units; a width of `w` font
/// units is `w * px / em` pixels, where `em` is the font's height in font units.
#[derive(Clone, Copy, Debug)]
pub struct Measure {
    /// Point size, in pixels.
    pub px: u32,
    /// Height of the font (ascent minus descent), in font units.
    pub em: u32,
    /// Advance of the space glyph, in font units.
    pub space: u16,
    /// Widest line allowed, in pixels.
    pub limit: u32,
}

/// A width of `w` font units is at most the allowed width.
pub open spec fn fits(m: Measure, w: nat) -> bool {
    w * m.px <= m.limit * m.em
}

/// Where wrapping stands after some prefix of the text: the closed lines, the
/// line being filled and its width, and the word being read and its width.
pub struct WrapState {
    pub lines: Seq<Seq<char>>,
    pub line: Seq<char>,
    pub line_w: nat,
    pub word: Seq<char>,
    pub word_w: nat,
    /// The words of each closed line.
    pub lines_words: Seq<Seq<Seq<char>>>,
    /// The words of the current line.
    pub line_words: Seq<Seq<char>>,
}

pub open spec fn wrap_init() -> WrapState {
    WrapState {
        lines: seq![],
        line: seq![],
        line_w: 0,
        word: seq![],
        word_w: 0,
        lines_words: seq![],
        line_words: seq![],
    }
}

/// A finished word goes on the current line after one space if the line stays
/// within the allowed width, and otherwise starts a new line.
pub open spec fn place_word(st: WrapState, m: Measure) -> WrapState {
    if st.word.len() == 0 {
        st
    } else if st.line.len() == 0 {
        WrapState {
            line: st.word,
            line_w: st.word_w,
            word: seq![],
            word_w: 0,
            line_words: seq![st.word],
            ..st
        }
    } else if fits(m, (st.line_w + m.space + st.word_w) as nat) {
        WrapState {
            line: st.line + seq![' '] + st.word,
            line_w: (st.line_w + m.space + st.word_w) as nat,
            word: seq![],
            word_w: 0,
            line_words: st.line_words.push(st.word),
            ..st
        }
    } else {
        WrapState {
            lines: st.lines.push(st.line),
            line: st.word,
            line_w: st.word_w,
            word: seq![],
            word_w: 0,
            lines_words: st.lines_words.push(st.line_words),
            line_words: seq![st.word],
        }
    }
}

/// The current line, if it holds anything, is closed.
pub open spec fn close_line(st: WrapState) -> WrapState {
    if st.line.len() == 0 {
        st
    } else {
        WrapState {
            lines: st.lines.push(st.line),
            line: seq![],
            line_w: 0,
            lines_words: st.lines_words.push(st.line_words),
            line_words: seq![],
            ..st
        }
    }
}

/// Reading one character of advance `a`: a newline ends the word and the
/// paragraph, other whitespace ends the word, anything else extends it.
pub open spec fn wrap_step(st: WrapState, c: char, a: u16, m: Measure) -> WrapState {
    if c == '\n' {
        close_line(place_word(st, m))
    } else if is_white_space(c) {
        place_word(st, m)
    } else {
        WrapState { word: st.word.push(c), word_w: (st.word_w + a) as nat, ..st }
    }
}

/// The state after the first `n` characters of `text`, whose advances are `adv`.
pub open spec fn wrap_prefix(text: Seq<char>, adv: Seq<u16>, n: nat, m: Measure) -> WrapState
    decreases n,
{
    if n == 0 {
        wrap_init()
    } else {
        wrap_step(wrap_prefix(text, adv, (n - 1) as nat, m), text[n - 1], adv[n - 1], m)
    }
}

/// The lines of `text`: each paragraph wrapped greedily by width; where no
/// line comes out at all, the text itself is the one line.
pub open spec fn wrap_spec(text: Seq<char>, adv: Seq<u16>, m: Measure) -> Seq<Seq<char>> {
    let st = close_line(place_word(wrap_prefix(text, adv, text.len(), m), m));
    if st.lines.len() == 0 {
        seq![text]
    } else {
        st.lines
    }
}

/// The character sequences of `v`.
pub open spec fn views(v: Seq<String>) -> Seq<Seq<char>> {
    v.map_values(|s: String| s@)
}

fn append_range(dst: &mut Vec<char>, src: &Vec<char>, from: usize, to: usize)
    requires
        from <= to <= src.len(),
    ensures
        final(dst)@ == old(dst)@ + src@.subrange(from as int, to as int),
{
    let ghost start = dst@;
    let mut i = from;
    while i < to
        invariant
            from <= i <= to <= src.len(),
            dst@ == start + src@.subrange(from as int, i as int),
        decreases to - i,
    {
        dst.push(src[i]);
        assert(src@.subrange(from as int, i + 1) == src@.subrange(from as int, i as int).push(
            src@[i as int],
        ));
        i = i + 1;
    }
}

fn place_word_exec(
    lines: &mut Vec<String>,
    line: &mut Vec<char>,
    line_w: &mut u128,
    chars: &Vec<char>,
    ws: usize,
    i: usize,
    word_w: u128,
    m: Measure,
)
    requires
        ws <= i <= chars.len(),
        ws == i ==> word_w == 0,
        *old(line_w) + word_w + 65535 * (i - ws) <= 2 * 65535 * i,
    ensures
        ({
            let after = place_word(
                WrapState {
                    lines: views(old(lines)@),
                    line: old(line)@,
                    line_w: *old(line_w) as nat,
                    word: chars@.subrange(ws as int, i as int),
                    word_w: word_w as nat,
                    lines_words: seq![],
                    line_words: seq![],
                },
                m,
            );
            &&& views(final(lines)@) == after.lines
            &&& final(line)@ == after.line
            &&& *final(line_w) == after.line_w
            &&& after.word.len() == 0
            &&& after.word_w == 0
        }),
        *final(line_w) <= *old(line_w) + word_w + 65535 * (i - ws),
{
    if ws == i {
        assert(chars@.subrange(ws as int, i as int).len() == 0);
        return ;
    }
    let ghost wl = (*line_w as nat + m.space as nat + word_w as nat) as nat;
    proof {
        assert(2 * 65535 * i <= 2 * 65535 * usize::MAX) by (nonlinear_arith)
            requires
                i <= usize::MAX,
        ;
    }
    let sum: u128 = *line_w + m.space as u128 + word_w;
    proof {
        let b: int = 2 * 65535 * usize::MAX + 65535;
        assert(sum * (m.px as int) <= b * 0xffff_ffff) by (nonlinear_arith)
            requires
                sum <= b,
                0 <= m.px <= 0xffff_ffff,
        ;
        assert((m.limit as int) * (m.em as int) <= 0xffff_ffff * 0xffff_ffff) by (nonlinear_arith)
            requires
                0 <= m.limit <= 0xffff_ffff,
                0 <= m.em <= 0xffff_ffff,
        ;
    }
    if line.len() == 0 {
        let mut w: Vec<char> = Vec::new();
        append_range(&mut w, chars, ws, i);
        *line = w;
        *line_w = word_w;
        assert(line@ =~= chars@.subrange(ws as int, i as int));
    } else if sum * (m.px as u128) <= (m.limit as u128) * (m.em as u128) {
        assert(fits(m, wl));
        line.push(' ');
        append_range(line, chars, ws, i);
        *line_w = sum;
    } else {
        assert(!fits(m, wl));
        let s = string_of(line);
        lines.push(s);
        assert(views(lines@) =~= views(old(lines)@).push(old(line)@));
        let mut w: Vec<char> = Vec::new();
        append_range(&mut w, chars, ws, i);
        *line = w;
        *line_w = word_w;
        assert(line@ =~= chars@.subrange(ws as int, i as int));
    }
}

fn close_line_exec(lines: &mut Vec<String>, line: &mut Vec<char>, line_w: &mut u128)
    ensures
        ({
            let after = close_line(
                WrapState {
                    lines: views(old(lines)@),
                    line: old(line)@,
                    line_w: *old(line_w) as nat,
                    word: seq![],
                    word_w: 0,
                    lines_words: seq![],
                    line_words: seq![],
                },
            );
            &&& views(final(lines)@) == after.lines
            &&& final(line)@ == after.line
            &&& *final(line_w) == after.line_w
        }),
        *final(line_w) <= *old(line_w),
{
    if line.len() > 0 {
        let s = string_of(line);
        lines.push(s);
        assert(views(lines@) =~= views(old(lines)@).push(old(line)@));
        *line = Vec::new();
        *line_w = 0;
        assert(line@ =~= Seq::<char>::empty());
    }
}

/// Wraps `chars`, whose glyph advances are `adv`, into lines no wider than
/// `m.limit` pixels where words allow it.
pub fn wrap_measured(chars: &Vec<char>, adv: &Vec<u16>, m: Measure) -> (r: Vec<String>)
    requires
        adv.len() == chars.len(),
    ensures
        views(r@) == wrap_spec(chars@, adv@, m),
{
    let mut lines: Vec<String> = Vec::new();
    let mut line: Vec<char> = Vec::new();
    let mut line_w: u128 = 0;
    let mut ws: usize = 0;
    let mut word_w: u128 = 0;
    let mut i: usize = 0;
    assert(views(lines@) =~= seq![]);
    assert(chars@.subrange(0, 0) =~= seq![]);
    while i < chars.len()
        invariant
            adv.len() == chars.len(),
            ws <= i <= chars.len(),
            ws == i ==> word_w == 0,
            line_w + word_w + 65535 * (i - ws) <= 2 * 65535 * i,
            ({
                let st = wrap_prefix(chars@, adv@, i as nat, m);
                &&& views(lines@) == st.lines
                &&& line@ == st.line
                &&& line_w == st.line_w
                &&& chars@.subrange(ws as int, i as int) == st.word
                &&& word_w == st.word_w
            }),
        decreases chars.len() - i,
    {
        let c = chars[i];
        if is_whitespace_char(c) {
            place_word_exec(&mut lines, &mut line, &mut line_w, chars, ws, i, word_w, m);
            assert(line_w <= 2 * 65535 * i);
            if c == '\n' {
                close_line_exec(&mut lines, &mut line, &mut line_w);
            }
            assert(line_w + 0 + 65535 * 0 <= 2 * 65535 * (i + 1)) by (nonlinear_arith)
                requires
                    line_w <= 2 * 65535 * i,
            ;
            ws = i + 1;
            word_w = 0;
            assert(chars@.subrange(ws as int, i + 1) =~= seq![]);
        } else {
            assert(chars@.subrange(ws as int, i + 1) =~= chars@.subrange(ws as int, i as int).push(
                c,
            ));
            proof {
                assert(2 * 65535 * i <= 2 * 65535 * usize::MAX) by (nonlinear_arith)
                    requires
                        i <= usize::MAX,
                ;
            }
            let ghost w0 = word_w;
            assert(line_w + w0 + 65535 * (i - ws) <= 2 * 65535 * i);
            assert(adv[i as int] <= 65535);
            word_w = word_w + adv[i] as u128;
            assert(word_w == w0 + adv[i as int]);
            assert(line_w + word_w + 65535 * (i + 1 - ws) <= 2 * 65535 * (i + 1)) by (nonlinear_arith)
                requires
                    line_w + w0 + 65535 * (i - ws) <= 2 * 65535 * i,
                    word_w == w0 + adv[i as int],
                    adv[i as int] <= 65535,
            ;
        }
        i = i + 1;
    }
    place_word_exec(&mut lines, &mut line, &mut line_w, chars, ws, i, word_w, m);
    close_line_exec(&mut lines, &mut line, &mut line_w);
    if lines.len() == 0 {
        let mut only: Vec<String> = Vec::new();
        only.push(string_of(chars));
        assert(views(only@) =~= seq![chars@]);
        only
    } else {
        lines
    }
}

/// Something is waiting to become part of a line.
pub open spec fn pending(st: WrapState) -> bool {
    st.line.len() > 0 || st.word.len() > 0
}

proof fn lemma_step_keeps_count(st: WrapState, c: char, a: u16, m: Measure, k: nat)
    requires
        st.lines.len() >= k,
    ensures
        wrap_step(st, c, a, m).lines.len() >= k,
        st.lines.len() >= k + 1 || pending(st) ==> ({
            let s2 = wrap_step(st, c, a, m);
            s2.lines.len() >= k + 1 || pending(s2)
        }),
{
}

proof fn lemma_prefix_counts(
    text: Seq<char>,
    adv: Seq<u16>,
    m: Measure,
    n0: nat,
    n: nat,
    k: nat,
    j: int,
)
    requires
        n0 <= n <= text.len(),
        adv.len() == text.len(),
        wrap_prefix(text, adv, n0, m).lines.len() >= k,
    ensures
        wrap_prefix(text, adv, n, m).lines.len() >= k,
        n0 <= j < n && !is_white_space(text[j]) ==> ({
            let st = wrap_prefix(text, adv, n, m);
            st.lines.len() >= k + 1 || pending(st)
        }),
    decreases n - n0,
{
    if n > n0 {
        let n1 = (n - 1) as nat;
        lemma_prefix_counts(text, adv, m, n0, n1, k, j);
        let st = wrap_prefix(text, adv, n1, m);
        lemma_step_keeps_count(st, text[n1 as int], adv[n1 as int], m, k);
    }
}

/// A newline always ends a line: where the text before a newline and the text
/// after it each hold a word, wrapping gives at least two lines, however short
/// the two paragraphs are.
pub proof fn newline_separates_paragraphs(text: Seq<char>, adv: Seq<u16>, m: Measure, p: int)
    requires
        adv.len() == text.len(),
        0 <= p < text.len(),
        text[p] == '\n',
        exists|j: int| 0 <= j < p && !is_white_space(text[j]),
        exists|j: int| p < j < text.len() && !is_white_space(text[j]),
    ensures
        wrap_spec(text, adv, m).len() >= 2,
{
    let j1 = choose|j: int| 0 <= j < p && !is_white_space(text[j]);
    let j2 = choose|j: int| p < j < text.len() && !is_white_space(text[j]);
    lemma_prefix_counts(text, adv, m, 0, p as nat, 0, j1);
    let at_newline = wrap_prefix(text, adv, (p + 1) as nat, m);
    assert(at_newline.lines.len() >= 1);
    lemma_prefix_counts(text, adv, m, (p + 1) as nat, text.len(), 1, j2);
}

/// Width of `l` in font units, where `f` gives each character's advance.
pub open spec fn seq_width(l: Seq<char>, f: spec_fn(char) -> nat) -> nat
    decreases l.len(),
{
    if l.len() == 0 {
        0
    } else {
        seq_width(l.drop_last(), f) + f(l.last())
    }
}

/// A line either fits the allowed width or is one word alone.
pub open spec fn line_ok(l: Seq<char>, m: Measure, f: spec_fn(char) -> nat) -> bool {
    fits(m, seq_width(l, f)) || !l.contains(' ')
}

pub open spec fn state_ok(st: WrapState, m: Measure, f: spec_fn(char) -> nat) -> bool {
    &&& forall|k: int| 0 <= k < st.lines.len() ==> line_ok(#[trigger] st.lines[k], m, f)
    &&& line_ok(st.line, m, f)
    &&& st.line_w == seq_width(st.line, f)
    &&& st.word_w == seq_width(st.word, f)
    &&& !st.word.contains(' ')
}

proof fn lemma_width_concat(a: Seq<char>, b: Seq<char>, f: spec_fn(char) -> nat)
    ensures
        seq_width(a + b, f) == seq_width(a, f) + seq_width(b, f),
    decreases b.len(),
{
    if b.len() > 0 {
        lemma_width_concat(a, b.drop_last(), f);
        assert((a + b).drop_last() =~= a + b.drop_last());
    } else {
        assert(a + b =~= a);
    }
}

proof fn lemma_place_ok(st: WrapState, m: Measure, f: spec_fn(char) -> nat)
    requires
        state_ok(st, m, f),
        f(' ') == m.space,
    ensures
        state_ok(place_word(st, m), m, f),
{
    let s2 = place_word(st, m);
    assert(!Seq::<char>::empty().contains(' '));
    if st.word.len() > 0 && st.line.len() > 0 {
        if fits(m, (st.line_w + m.space + st.word_w) as nat) {
            lemma_width_concat(st.line, seq![' '], f);
            lemma_width_concat(st.line + seq![' '], st.word, f);
            assert(seq_width(seq![' '], f) == f(' ')) by {
                let one = seq![' '];
                assert(one.drop_last() =~= Seq::<char>::empty());
                assert(one.last() == ' ');
                assert(seq_width(one.drop_last(), f) == 0);
            }
        } else {
            assert forall|k: int| 0 <= k < s2.lines.len() implies line_ok(
                #[trigger] s2.lines[k],
                m,
                f,
            ) by {
                if k < st.lines.len() {
                    assert(s2.lines[k] == st.lines[k]);
                }
            }
        }
    }
}

proof fn lemma_step_ok(st: WrapState, c: char, a: u16, m: Measure, f: spec_fn(char) -> nat)
    requires
        state_ok(st, m, f),
        f(' ') == m.space,
        f(c) == a,
    ensures
        state_ok(wrap_step(st, c, a, m), m, f),
{
    if c == '\n' || is_white_space(c) {
        lemma_place_ok(st, m, f);
        let s1 = place_word(st, m);
        let s2 = close_line(s1);
        if c == '\n' && s1.line.len() > 0 {
            assert forall|k: int| 0 <= k < s2.lines.len() implies line_ok(
                #[trigger] s2.lines[k],
                m,
                f,
            ) by {
                if k < s1.lines.len() {
                    assert(s2.lines[k] == s1.lines[k]);
                }
            }
            assert(!Seq::<char>::empty().contains(' '));
        }
    } else {
        let w = st.word.push(c);
        assert(w.drop_last() =~= st.word);
        assert(c != ' ');
        assert(!w.contains(' ')) by {
            if w.contains(' ') {
                let i = choose|i: int| 0 <= i < w.len() && w[i] == ' ';
                assert(i < st.word.len());
                assert(st.word[i] == ' ');
            }
        }
    }
}

proof fn lemma_prefix_ok(
    text: Seq<char>,
    adv: Seq<u16>,
    m: Measure,
    f: spec_fn(char) -> nat,
    n: nat,
)
    requires
        n <= text.len(),
        adv.len() == text.len(),
        forall|i: int| 0 <= i < text.len() ==> adv[i] == f(#[trigger] text[i]),
        f(' ') == m.space,
    ensures
        state_ok(wrap_prefix(text, adv, n, m), m, f),
    decreases n,
{
    if n == 0 {
        assert(!Seq::<char>::empty().contains(' '));
    } else {
        let n1 = (n - 1) as nat;
        lemma_prefix_ok(text, adv, m, f, n1);
        lemma_step_ok(wrap_prefix(text, adv, n1, m), text[n1 as int], adv[n1 as int], m, f);
    }
}

/// Wrapping keeps every line within the allowed width, except a line that is
/// one word alone (a word is never broken to make it fit). Here `f` gives the
/// advance of each character, as the font does.
pub proof fn wrapped_lines_fit(
    text: Seq<char>,
    adv: Seq<u16>,
    m: Measure,
    f: spec_fn(char) -> nat,
)
    requires
        adv.len() == text.len(),
        forall|i: int| 0 <= i < text.len() ==> adv[i] == f(#[trigger] text[i]),
        f(' ') == m.space,
        exists|j: int| 0 <= j < text.len() && !is_white_space(text[j]),
    ensures
        forall|k: int|
            0 <= k < wrap_spec(text, adv, m).len() ==> line_ok(
                #[trigger] wrap_spec(text, adv, m)[k],
                m,
                f,
            ),
{
    let j = choose|j: int| 0 <= j < text.len() && !is_white_space(text[j]);
    lemma_prefix_ok(text, adv, m, f, text.len());
    lemma_prefix_counts(text, adv, m, 0, text.len(), 0, j);
    let st = wrap_prefix(text, adv, text.len(), m);
    lemma_place_ok(st, m, f);
    let s1 = place_word(st, m);
    let s2 = close_line(s1);
    assert(s2.lines.len() >= 1);
    if s1.line.len() > 0 {
        assert forall|k: int| 0 <= k < s2.lines.len() implies line_ok(
            #[trigger] s2.lines[k],
            m,
            f,
        ) by {
            if k < s1.lines.len() {
                assert(s2.lines[k] == s1.lines[k]);
            }
        }
    }
}

/// Words read so far, and the word being read.
pub struct WordsState {
    pub words: Seq<Seq<char>>,
    pub word: Seq<char>,
}

pub open spec fn words_step(st: WordsState, c: char) -> WordsState {
    if !is_white_space(c) {
        WordsState { word: st.word.push(c), ..st }
    } else if st.word.len() > 0 {
        WordsState { words: st.words.push(st.word), word: seq![] }
    } else {
        st
    }
}

pub open spec fn words_prefix(text: Seq<char>, n: nat) -> WordsState
    decreases n,
{
    if n == 0 {
        WordsState { words: seq![], word: seq![] }
    } else {
        words_step(words_prefix(text, (n - 1) as nat), text[n - 1])
    }
}

/// The words of `text`: its maximal runs of non-whitespace characters, in order.
pub open spec fn words_of(text: Seq<char>) -> Seq<Seq<char>> {
    let st = words_prefix(text, text.len());
    if st.word.len() > 0 {
        st.words.push(st.word)
    } else {
        st.words
    }
}

/// `ws` written out with one space between consecutive words.
pub open spec fn join_words(ws: Seq<Seq<char>>) -> Seq<char>
    decreases ws.len(),
{
    if ws.len() == 0 {
        seq![]
    } else if ws.len() == 1 {
        ws[0]
    } else {
        join_words(ws.drop_last()) + seq![' '] + ws.last()
    }
}

/// The groups one after the other.
pub open spec fn flatten_groups(gs: Seq<Seq<Seq<char>>>) -> Seq<Seq<char>>
    decreases gs.len(),
{
    if gs.len() == 0 {
        seq![]
    } else {
        flatten_groups(gs.drop_last()) + gs.last()
    }
}

pub open spec fn words_agree(st: WrapState, ws: WordsState) -> bool {
    &&& ws.words == flatten_groups(st.lines_words) + st.line_words
    &&& ws.word == st.word
    &&& st.lines.len() == st.lines_words.len()
    &&& forall|k: int|
        0 <= k < st.lines.len() ==> #[trigger] st.lines[k] == join_words(st.lines_words[k])
            && st.lines_words[k].len() > 0
    &&& st.line == join_words(st.line_words)
    &&& (st.line.len() == 0 <==> st.line_words.len() == 0)
    &&& forall|k: int| 0 <= k < st.line_words.len() ==> (#[trigger] st.line_words[k]).len() > 0
}

proof fn lemma_place_agree(st: WrapState, ws: WordsState, m: Measure)
    requires
        words_agree(st, ws),
    ensures
        ({
            let s2 = place_word(st, m);
            let w2 = if st.word.len() > 0 {
                WordsState { words: ws.words.push(ws.word), word: seq![] }
            } else {
                ws
            };
            words_agree(s2, w2)
        }),
{
    let s2 = place_word(st, m);
    if st.word.len() > 0 {
        if st.line.len() == 0 {
            assert(flatten_groups(st.lines_words) + seq![st.word] =~= (flatten_groups(
                st.lines_words,
            ) + st.line_words).push(st.word));
            assert(join_words(seq![st.word]) == st.word);
        } else if fits(m, (st.line_w + m.space + st.word_w) as nat) {
            assert(flatten_groups(st.lines_words) + st.line_words.push(st.word) =~= (
            flatten_groups(st.lines_words) + st.line_words).push(st.word));
            assert(st.line_words.push(st.word).drop_last() =~= st.line_words);
            assert(s2.line.len() > 0);
            assert forall|k: int| 0 <= k < s2.line_words.len() implies (
            #[trigger] s2.line_words[k]).len() > 0 by {
                if k < st.line_words.len() {
                    assert(s2.line_words[k] == st.line_words[k]);
                }
            }
        } else {
            let lw = st.lines_words.push(st.line_words);
            assert(lw.drop_last() =~= st.lines_words);
            assert(flatten_groups(lw) == flatten_groups(st.lines_words) + st.line_words);
            assert(flatten_groups(lw) + seq![st.word] =~= (flatten_groups(st.lines_words)
                + st.line_words).push(st.word));
            assert(join_words(seq![st.word]) == st.word);
            assert forall|k: int| 0 <= k < s2.lines.len() implies #[trigger] s2.lines[k]
                == join_words(s2.lines_words[k]) && s2.lines_words[k].len() > 0 by {
                if k < st.lines.len() {
                    assert(s2.lines[k] == st.lines[k]);
                    assert(s2.lines_words[k] == st.lines_words[k]);
                }
            }
        }
    }
}

proof fn lemma_close_agree(st: WrapState, ws: WordsState)
    requires
        words_agree(st, ws),
        st.word.len() == 0,
    ensures
        words_agree(close_line(st), ws),
{
    let s2 = close_line(st);
    if st.line.len() > 0 {
        let lw = st.lines_words.push(st.line_words);
        assert(lw.drop_last() =~= st.lines_words);
        assert(flatten_groups(lw) == flatten_groups(st.lines_words) + st.line_words);
        assert(flatten_groups(lw) + Seq::<Seq<char>>::empty() =~= flatten_groups(lw));
        assert forall|k: int| 0 <= k < s2.lines.len() implies #[trigger] s2.lines[k]
            == join_words(s2.lines_words[k]) && s2.lines_words[k].len() > 0 by {
            if k < st.lines.len() {
                assert(s2.lines[k] == st.lines[k]);
                assert(s2.lines_words[k] == st.lines_words[k]);
            }
        }
    }
}

proof fn lemma_prefix_agree(text: Seq<char>, adv: Seq<u16>, m: Measure, n: nat)
    requires
        n <= text.len(),
        adv.len() == text.len(),
    ensures
        words_agree(wrap_prefix(text, adv, n, m), words_prefix(text, n)),
    decreases n,
{
    if n == 0 {
        assert(flatten_groups(seq![]) + seq![] =~= Seq::<Seq<char>>::empty());
    } else {
        let n1 = (n - 1) as nat;
        lemma_prefix_agree(text, adv, m, n1);
        let st = wrap_prefix(text, adv, n1, m);
        let ws = words_prefix(text, n1);
        let c = text[n1 as int];
        if is_white_space(c) {
            lemma_place_agree(st, ws, m);
            if c == '\n' {
                lemma_close_agree(place_word(st, m), words_prefix(text, n));
            }
        } else {
            assert(c != '\n');
        }
    }
}

/// Wrapping never breaks a word: the lines hold exactly the words of the text,
/// in order, each line being its words joined by single spaces.
pub proof fn wrapping_keeps_words(text: Seq<char>, adv: Seq<u16>, m: Measure)
    requires
        adv.len() == text.len(),
        exists|j: int| 0 <= j < text.len() && !is_white_space(text[j]),
    ensures
        exists|groups: Seq<Seq<Seq<char>>>|
            {
                &&& groups.len() == wrap_spec(text, adv, m).len()
                &&& flatten_groups(groups) == words_of(text)
                &&& forall|k: int|
                    0 <= k < groups.len() ==> #[trigger] wrap_spec(text, adv, m)[k] == join_words(
                        groups[k],
                    )
            },
{
    let j = choose|j: int| 0 <= j < text.len() && !is_white_space(text[j]);
    lemma_prefix_agree(text, adv, m, text.len());
    lemma_prefix_counts(text, adv, m, 0, text.len(), 0, j);
    let st = wrap_prefix(text, adv, text.len(), m);
    let ws = words_prefix(text, text.len());
    lemma_place_agree(st, ws, m);
    let s1 = place_word(st, m);
    let w1 = if st.word.len() > 0 {
        WordsState { words: ws.words.push(ws.word), word: seq![] }
    } else {
        ws
    };
    lemma_close_agree(s1, w1);
    let s2 = close_line(s1);
    assert(s2.lines.len() >= 1);
    assert(s2.line_words.len() == 0);
    assert(w1.words =~= flatten_groups(s2.lines_words));
    assert(w1.words == words_of(text));
    assert(wrap_spec(text, adv, m) == s2.lines);
    let groups = s2.lines_words;
    assert(forall|k: int|
        0 <= k < groups.len() ==> #[trigger] wrap_spec(text, adv, m)[k] == join_words(groups[k]));
}

} // verus!
