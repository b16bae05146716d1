use vstd::prelude::*;
use crate::models::{grid_view, Cell, CellPanel, Color, FontType};

verus! {

/// A lexical unit of the markdown dialect. A word is the span
/// `[start, end)` of the source text, counted in characters.
#[derive(Clone, Copy, Debug, PartialEq, Eq, Structural)]
pub enum Token {
    Word { start: usize, end: usize },
    DoubleAsterisk,
    Asterisk,
    NewLine,
    Space,
    PoundSign,
}

/// The source text a token stands for, given the text it was lexed from.
pub open spec fn token_text(t: Token, source: Seq<char>) -> Seq<char> {
    match t {
        Token::Space => seq![' '],
        Token::NewLine => seq!['\n'],
        Token::Asterisk => seq!['*'],
        Token::DoubleAsterisk => seq!['*', '*'],
        Token::PoundSign => seq!['#'],
        Token::Word { start, end } => source.subrange(start as int, end as int),
    }
}

impl Token {
    /// The token written back as text; a word is cut from `source`.
    pub fn to_chars(&self, source: &Vec<char>) -> (r: Vec<char>)
        requires
            *self matches Token::Word { start, end } ==> start <= end <= source@.len(),
        ensures
            r@ == token_text(*self, source@),
    {
        let mut r: Vec<char> = Vec::new();
        match *self {
            Token::Space => r.push(' '),
            Token::NewLine => r.push('\n'),
            Token::Asterisk => r.push('*'),
            Token::DoubleAsterisk => {
                r.push('*');
                r.push('*');
            },
            Token::PoundSign => r.push('#'),
            Token::Word { start, end } => {
                let mut i = start;
                while i < end
                    invariant
                        start <= i <= end <= source@.len(),
                        r@ == source@.subrange(start as int, i as int),
                    decreases end - i,
                {
                    r.push(source[i]);
                    proof {
                        assert(r@ =~= source@.subrange(start as int, i + 1));
                    }
                    i = i + 1;
                }
            },
        }
        proof {
            assert(r@ =~= token_text(*self, source@));
        }
        r
    }
}

/// A character that ends a word: `#`, `*`, a space, a newline, or a
/// carriage return that opens a `\r\n` pair.
pub open spec fn is_delim(s: Seq<char>, i: int) -> bool {
    ||| s[i] == '#'
    ||| s[i] == '*'
    ||| s[i] == ' '
    ||| s[i] == '\n'
    ||| s[i] == '\r' && i + 1 < s.len() && s[i + 1] == '\n'
}

/// How many characters a word character at `i` takes: two for a
/// backslash that escapes `#` or `*`, else one.
pub open spec fn word_step(s: Seq<char>, i: int) -> int {
    if s[i] == '\\' && i + 1 < s.len() && (s[i + 1] == '#' || s[i + 1] == '*') {
        2
    } else {
        1
    }
}

/// The length of the word that starts at `i`: it runs up to the next
/// delimiter or the end of the text.
pub open spec fn word_len(s: Seq<char>, i: int) -> nat
    decreases s.len() - i,
{
    if i < 0 || i >= s.len() {
        0
    } else {
        let step = word_step(s, i);
        if i + step < s.len() && !is_delim(s, i + step) {
            (step + word_len(s, i + step)) as nat
        } else {
            step as nat
        }
    }
}

/// A word takes at least the character it starts with.
pub proof fn lemma_word_len_positive(s: Seq<char>, i: int)
    requires
        0 <= i < s.len(),
    ensures
        1 <= word_len(s, i) <= s.len() - i,
    decreases s.len() - i,
{
    let step = word_step(s, i);
    if i + step < s.len() && !is_delim(s, i + step) {
        lemma_word_len_positive(s, i + step);
    }
}

/// The tokens of `s` from position `i` on.
pub open spec fn lex_from(s: Seq<char>, i: int) -> Seq<Token>
    decreases s.len() - i,
{
    if i < 0 || i >= s.len() {
        seq![]
    } else if s[i] == '#' {
        seq![Token::PoundSign] + lex_from(s, i + 1)
    } else if s[i] == '*' {
        if i + 1 < s.len() && s[i + 1] == '*' {
            seq![Token::DoubleAsterisk] + lex_from(s, i + 2)
        } else {
            seq![Token::Asterisk] + lex_from(s, i + 1)
        }
    } else if s[i] == ' ' {
        seq![Token::Space] + lex_from(s, i + 1)
    } else if s[i] == '\n' {
        seq![Token::NewLine] + lex_from(s, i + 1)
    } else if s[i] == '\r' && i + 1 < s.len() && s[i + 1] == '\n' {
        seq![Token::NewLine] + lex_from(s, i + 2)
    } else {
        proof {
            lemma_word_len_positive(s, i);
        }
        let e = i + word_len(s, i);
        seq![Token::Word { start: i as usize, end: e as usize }] + lex_from(s, e)
    }
}

/// The token stream of a whole text.
pub open spec fn lex(s: Seq<char>) -> Seq<Token> {
    lex_from(s, 0)
}

/// Every word of the token stream is a span of the text.
pub proof fn lemma_lex_spans(s: Seq<char>, i: int)
    requires
        0 <= i,
        s.len() <= usize::MAX,
    ensures
        forall|k: int| 0 <= k < lex_from(s, i).len() ==> (#[trigger] lex_from(s, i)[k] matches Token::Word { start, end }
            ==> i <= start <= end <= s.len()),
    decreases s.len() - i,
{
    if i < s.len() {
        let t = lex_from(s, i);
        if s[i] == '#' || s[i] == ' ' || s[i] == '\n' || (s[i] == '*' && !(i + 1 < s.len() && s[i + 1] == '*')) {
            lemma_lex_spans(s, i + 1);
            assert forall|k: int| 0 <= k < t.len() implies (#[trigger] t[k] matches Token::Word { start, end } ==> i <= start <= end <= s.len()) by {
                if k > 0 {
                    assert(t[k] == lex_from(s, i + 1)[k - 1]);
                }
            }
        } else if (s[i] == '*' && i + 1 < s.len() && s[i + 1] == '*') || (s[i] == '\r' && i + 1 < s.len() && s[i + 1] == '\n') {
            lemma_lex_spans(s, i + 2);
            assert forall|k: int| 0 <= k < t.len() implies (#[trigger] t[k] matches Token::Word { start, end } ==> i <= start <= end <= s.len()) by {
                if k > 0 {
                    assert(t[k] == lex_from(s, i + 2)[k - 1]);
                }
            }
        } else {
            lemma_word_len_positive(s, i);
            let e = i + word_len(s, i);
            lemma_lex_spans(s, e);
            assert forall|k: int| 0 <= k < t.len() implies (#[trigger] t[k] matches Token::Word { start, end } ==> i <= start <= end <= s.len()) by {
                if k > 0 {
                    assert(t[k] == lex_from(s, e)[k - 1]);
                }
            }
        }
    }
}

fn is_delim_at(text: &Vec<char>, i: usize) -> (r: bool)
    requires
        i < text@.len(),
    ensures
        r == is_delim(text@, i as int),
{
    let c = text[i];
    let n = text.len();
    c == '#' || c == '*' || c == ' ' || c == '\n' || (c == '\r' && i < n - 1 && text[i + 1] == '\n')
}

/// The end of the word that starts at `i`.
fn scan_word(text: &Vec<char>, i: usize) -> (e: usize)
    requires
        i < text@.len(),
    ensures
        e == i + word_len(text@, i as int),
        i < e <= text@.len(),
{
    let n = text.len();
    let mut j = i;
    loop
        invariant
            i <= j < n,
            n == text@.len(),
            i + word_len(text@, i as int) == j + word_len(text@, j as int),
        decreases n - j,
    {
        let step: usize = if text[j] == '\\' && j + 1 < n && (text[j + 1] == '#' || text[j + 1] == '*') {
            2
        } else {
            1
        };
        assert(step == word_step(text@, j as int));
        if j + step < n && !is_delim_at(text, j + step) {
            j = j + step;
        } else {
            return j + step;
        }
    }
}

/// Splits markdown text into tokens.
pub fn lexer(mark_down_text: &Vec<char>) -> (tokens: Vec<Token>)
    ensures
        tokens@ == lex(mark_down_text@),
{
    let ghost s = mark_down_text@;
    let n = mark_down_text.len();
    let mut tokens: Vec<Token> = Vec::new();
    let mut pointer: usize = 0;
    while pointer < n
        invariant
            pointer <= n,
            n == s.len(),
            s == mark_down_text@,
            tokens@ + lex_from(s, pointer as int) == lex(s),
        decreases n - pointer,
    {
        let ghost before = tokens@;
        let c = mark_down_text[pointer];
        let next: usize;
        if c == '#' {
            tokens.push(Token::PoundSign);
            next = pointer + 1;
        } else if c == '*' {
            if pointer + 1 < n && mark_down_text[pointer + 1] == '*' {
                tokens.push(Token::DoubleAsterisk);
                next = pointer + 2;
            } else {
                tokens.push(Token::Asterisk);
                next = pointer + 1;
            }
        } else if c == ' ' {
            tokens.push(Token::Space);
            next = pointer + 1;
        } else if c == '\n' {
            tokens.push(Token::NewLine);
            next = pointer + 1;
        } else if c == '\r' && pointer + 1 < n && mark_down_text[pointer + 1] == '\n' {
            tokens.push(Token::NewLine);
            next = pointer + 2;
        } else {
            let end = scan_word(mark_down_text, pointer);
            tokens.push(Token::Word { start: pointer, end });
            next = end;
        }
        proof {
            assert(before + lex_from(s, pointer as int) == before + (seq![tokens@.last()] + lex_from(s, next as int)));
            assert(tokens@ + lex_from(s, next as int) =~= before + (seq![tokens@.last()] + lex_from(s, next as int)));
        }
        pointer = next;
    }
    proof {
        assert(tokens@ + lex_from(s, pointer as int) =~= tokens@);
    }
    tokens
}


/// The font face for a `(bold, italic)` pair.
pub open spec fn font_of(bold: bool, italic: bool) -> FontType {
    if bold && italic {
        FontType::ResumeItalicBold
    } else if bold {
        FontType::ResumeBold
    } else if italic {
        FontType::ResumeItalic
    } else {
        FontType::ResumeDefault
    }
}

/// A rendered character: its face from the emphasis flags, its colours
/// from whether it sits in a header.
pub open spec fn styled_cell(c: char, bold: bool, italic: bool, header: bool) -> Cell {
    Cell {
        char: c,
        font_type: font_of(bold, italic),
        foreground_color: if header { Color::White } else { Color::Green },
        background_color: if header { Some(Color::DarkGreen) } else { None },
    }
}

/// The state of the cell-generation pass.
pub struct GenState {
    pub buffer: Seq<Seq<Cell>>,
    pub line: Seq<Cell>,
    pub bold: bool,
    pub italic: bool,
    pub header: bool,
}

pub open spec fn initial_gen() -> GenState {
    GenState { buffer: seq![], line: seq![], bold: false, italic: false, header: false }
}

/// Ends the current line.
pub open spec fn break_line(st: GenState) -> GenState {
    GenState { buffer: st.buffer.push(st.line), line: seq![], ..st }
}

/// Emits one character; a line that reaches `width` cells is ended.
pub open spec fn gen_char(st: GenState, c: char, width: nat) -> GenState {
    let line = st.line.push(styled_cell(c, st.bold, st.italic, st.header));
    if line.len() >= width {
        GenState { buffer: st.buffer.push(line), line: seq![], ..st }
    } else {
        GenState { line, ..st }
    }
}

/// Emits the characters of `cs` in order.
pub open spec fn gen_chars(st: GenState, cs: Seq<char>, width: nat) -> GenState
    decreases cs.len(),
{
    if cs.len() == 0 {
        st
    } else {
        gen_char(gen_chars(st, cs.drop_last(), width), cs.last(), width)
    }
}

/// A `target` marker comes later on the same line, from token `k` on.
pub open spec fn has_token_spec(tokens: Seq<Token>, k: int, target: Token) -> bool
    decreases tokens.len() - k,
{
    if k < 0 || k >= tokens.len() || tokens[k] == Token::NewLine {
        false
    } else if tokens[k] == target {
        true
    } else {
        has_token_spec(tokens, k + 1, target)
    }
}

/// A `#` at token `k` opens a header: it starts a line and a space follows.
pub open spec fn opens_header(tokens: Seq<Token>, k: int) -> bool {
    &&& k == 0 || tokens[k - 1] == Token::NewLine
    &&& k + 1 < tokens.len()
    &&& tokens[k + 1] == Token::Space
}

/// What token `k` does to the state.
pub open spec fn gen_step(st: GenState, tokens: Seq<Token>, k: int, text: Seq<char>, width: nat) -> GenState {
    match tokens[k] {
        Token::Asterisk => if st.italic {
            GenState { italic: false, ..st }
        } else if has_token_spec(tokens, k + 1, Token::Asterisk) {
            GenState { italic: true, ..st }
        } else {
            gen_char(st, '*', width)
        },
        Token::DoubleAsterisk => if st.bold {
            GenState { bold: false, ..st }
        } else if has_token_spec(tokens, k + 1, Token::DoubleAsterisk) {
            GenState { bold: true, ..st }
        } else {
            gen_char(gen_char(st, '*', width), '*', width)
        },
        Token::PoundSign => if opens_header(tokens, k) {
            GenState { header: true, ..st }
        } else {
            gen_char(st, '#', width)
        },
        Token::Space => gen_char(st, ' ', width),
        Token::Word { start, end } => {
            let word = text.subrange(start as int, end as int);
            let st1 = if word.len() + st.line.len() >= width { break_line(st) } else { st };
            gen_chars(st1, word, width)
        },
        Token::NewLine => GenState { header: false, ..break_line(st) },
    }
}

/// The index of the token after token `k`: a header marker also takes
/// the space behind it.
pub open spec fn next_token(tokens: Seq<Token>, k: int) -> int {
    if tokens[k] == Token::PoundSign && opens_header(tokens, k) {
        k + 2
    } else {
        k + 1
    }
}

/// Runs the generation pass from token `k` on.
pub open spec fn gen_from(st: GenState, tokens: Seq<Token>, k: int, text: Seq<char>, width: nat) -> GenState
    decreases tokens.len() - k,
{
    if k < 0 || k >= tokens.len() {
        st
    } else {
        gen_from(gen_step(st, tokens, k, text, width), tokens, next_token(tokens, k), text, width)
    }
}

/// The content rows that markdown text renders to at `width`: the last
/// line is kept when it holds anything.
pub open spec fn render_rows(text: Seq<char>, width: nat) -> Seq<Seq<Cell>> {
    let st = gen_from(initial_gen(), lex(text), 0, text, width);
    if st.line.len() > 0 {
        st.buffer.push(st.line)
    } else {
        st.buffer
    }
}

/// No finished row is wider than `width` and the open line is shorter.
pub open spec fn gen_ok(st: GenState, width: nat) -> bool {
    &&& forall|i: int| 0 <= i < st.buffer.len() ==> (#[trigger] st.buffer[i]).len() <= width
    &&& st.line.len() < width
}

proof fn lemma_gen_char_ok(st: GenState, c: char, width: nat)
    requires
        gen_ok(st, width),
    ensures
        gen_ok(gen_char(st, c, width), width),
{
    let r = gen_char(st, c, width);
    assert forall|i: int| 0 <= i < r.buffer.len() implies (#[trigger] r.buffer[i]).len() <= width by {
        if i < st.buffer.len() {
            assert(r.buffer[i] == st.buffer[i]);
        }
    }
}

proof fn lemma_break_line_ok(st: GenState, width: nat)
    requires
        gen_ok(st, width),
    ensures
        gen_ok(break_line(st), width),
{
    let r = break_line(st);
    assert forall|i: int| 0 <= i < r.buffer.len() implies (#[trigger] r.buffer[i]).len() <= width by {
        if i < st.buffer.len() {
            assert(r.buffer[i] == st.buffer[i]);
        }
    }
}

proof fn lemma_gen_chars_ok(st: GenState, cs: Seq<char>, width: nat)
    requires
        gen_ok(st, width),
    ensures
        gen_ok(gen_chars(st, cs, width), width),
    decreases cs.len(),
{
    if cs.len() > 0 {
        lemma_gen_chars_ok(st, cs.drop_last(), width);
        lemma_gen_char_ok(gen_chars(st, cs.drop_last(), width), cs.last(), width);
    }
}

proof fn lemma_gen_from_ok(st: GenState, tokens: Seq<Token>, k: int, text: Seq<char>, width: nat)
    requires
        gen_ok(st, width),
    ensures
        gen_ok(gen_from(st, tokens, k, text, width), width),
    decreases tokens.len() - k,
{
    if 0 <= k < tokens.len() {
        match tokens[k] {
            Token::Asterisk => {
                lemma_gen_char_ok(st, '*', width);
            },
            Token::DoubleAsterisk => {
                lemma_gen_char_ok(st, '*', width);
                lemma_gen_char_ok(gen_char(st, '*', width), '*', width);
            },
            Token::PoundSign => {
                lemma_gen_char_ok(st, '#', width);
            },
            Token::Space => {
                lemma_gen_char_ok(st, ' ', width);
            },
            Token::Word { start, end } => {
                lemma_break_line_ok(st, width);
                let word = text.subrange(start as int, end as int);
                let st1 = if word.len() + st.line.len() >= width { break_line(st) } else { st };
                lemma_gen_chars_ok(st1, word, width);
            },
            Token::NewLine => {
                lemma_break_line_ok(st, width);
            },
        }
        lemma_gen_from_ok(gen_step(st, tokens, k, text, width), tokens, next_token(tokens, k), text, width);
    }
}

/// However long its words, rendered text has no row wider than `width`.
pub proof fn lemma_render_rows_fit_width(text: Seq<char>, width: nat)
    requires
        width > 0,
    ensures
        forall|i: int| 0 <= i < render_rows(text, width).len() ==> (#[trigger] render_rows(text, width)[i]).len() <= width,
{
    let st = gen_from(initial_gen(), lex(text), 0, text, width);
    lemma_gen_from_ok(initial_gen(), lex(text), 0, text, width);
    let rows = render_rows(text, width);
    assert forall|i: int| 0 <= i < rows.len() implies (#[trigger] rows[i]).len() <= width by {
        if i < st.buffer.len() {
            assert(rows[i] == st.buffer[i]);
        }
    }
}

struct CellGenerator {
    cell_buffer: Vec<Vec<Cell>>,
    cell_line: Vec<Cell>,
    bold: bool,
    italic: bool,
    header: bool,
    line_width: usize,
}

impl CellGenerator {
    spec fn view(&self) -> GenState {
        GenState {
            buffer: grid_view(self.cell_buffer@),
            line: self.cell_line@,
            bold: self.bold,
            italic: self.italic,
            header: self.header,
        }
    }

    fn end_line(&mut self)
        ensures
            final(self).view() == break_line(old(self).view()),
            final(self).line_width == old(self).line_width,
    {
        let mut line: Vec<Cell> = Vec::new();
        std::mem::swap(&mut line, &mut self.cell_line);
        let ghost before = grid_view(self.cell_buffer@);
        self.cell_buffer.push(line);
        proof {
            assert(grid_view(self.cell_buffer@) =~= before.push(line@));
        }
    }

    fn gen_cell(&mut self, c: char)
        ensures
            final(self).view() == gen_char(old(self).view(), c, old(self).line_width as nat),
            final(self).line_width == old(self).line_width,
    {
        let font_type = match (self.bold, self.italic) {
            (true, true) => FontType::ResumeItalicBold,
            (false, false) => FontType::ResumeDefault,
            (true, false) => FontType::ResumeBold,
            (false, true) => FontType::ResumeItalic,
        };
        let foreground_color = if self.header { Color::White } else { Color::Green };
        let background_color = if self.header { Some(Color::DarkGreen) } else { None };
        self.cell_line.push(Cell { char: c, font_type, foreground_color, background_color });
        if self.cell_line.len() >= self.line_width {
            self.end_line();
        }
    }

    fn gen_word(&mut self, text: &Vec<char>, start: usize, end: usize)
        requires
            start <= end <= text@.len(),
        ensures
            final(self).view() == gen_chars(old(self).view(), text@.subrange(start as int, end as int),
                old(self).line_width as nat),
            final(self).line_width == old(self).line_width,
    {
        let ghost st0 = self.view();
        let ghost word = text@.subrange(start as int, end as int);
        let mut i = start;
        while i < end
            invariant
                start <= i <= end <= text@.len(),
                word == text@.subrange(start as int, end as int),
                self.line_width == old(self).line_width,
                self.view() == gen_chars(st0, word.take(i - start), self.line_width as nat),
            decreases end - i,
        {
            self.gen_cell(text[i]);
            proof {
                assert(word.take(i + 1 - start).drop_last() =~= word.take(i - start));
            }
            i = i + 1;
        }
        proof {
            assert(word.take(end - start) =~= word);
        }
    }
}

/// Scans forward from token `token_index` for `target` on the same line.
fn has_token(token_index: usize, tokens: &Vec<Token>, target: Token) -> (r: bool)
    ensures
        r == has_token_spec(tokens@, token_index as int, target),
{
    let mut new_index = token_index;
    while new_index < tokens.len() && tokens[new_index] != Token::NewLine
        invariant
            token_index <= new_index,
            has_token_spec(tokens@, token_index as int, target) == has_token_spec(tokens@, new_index as int, target),
        decreases tokens@.len() - new_index,
    {
        if tokens[new_index] == target {
            return true;
        }
        new_index = new_index + 1;
    }
    false
}

/// The characters of a string.
pub fn chars_of(s: &str) -> (v: Vec<char>)
    ensures
        v@ == s@,
{
    let mut v: Vec<char> = Vec::new();
    for c in it: s.chars()
        invariant
            v@ == it.seq().take(it.index() as int),
            it.seq() == s@,
    {
        v.push(c);
        proof {
            assert(v@ =~= it.seq().take(it.index() as int + 1));
        }
    }
    proof {
        assert(s@.take(s@.len() as int) =~= s@);
    }
    v
}

/// Renders markdown text into the content of a panel `width` cells wide
/// and `height` rows high, placed at the origin and not yet fitted.
pub fn render_markdown(mark_down_text: &String, width: usize, height: usize) -> (panel: CellPanel)
    ensures
        grid_view(panel.cells@) == render_rows(mark_down_text@, width as nat),
        width > 0 ==> forall|i: int| 0 <= i < panel.cells@.len() ==> (#[trigger] panel.cells@[i])@.len() <= width,
        panel.fitted_buffer@.len() == 0,
        panel.box_color.is_none(),
        panel.index == 0,
        panel.width == width,
        panel.height == height,
        panel.offset_x == 0,
        panel.offset_y == 0,
{
    let text = chars_of(mark_down_text.as_str());
    let mark_down_tokens = lexer(&text);
    let ghost toks = mark_down_tokens@;
    let ghost goal = gen_from(initial_gen(), toks, 0, text@, width as nat);
    let mut generator = CellGenerator {
        cell_buffer: Vec::new(),
        cell_line: Vec::new(),
        bold: false,
        italic: false,
        header: false,
        line_width: width,
    };
    proof {
        assert(generator.view().buffer =~= seq![]);
        assert(generator.view().line =~= seq![]);
        assert(generator.view() == initial_gen());
        assert(text@.len() == text.len());
        lemma_lex_spans(text@, 0);
    }
    let n = mark_down_tokens.len();
    let mut token_index: usize = 0;
    while token_index < n
        invariant
            token_index <= n,
            n == toks.len(),
            toks == mark_down_tokens@,
            toks == lex(text@),
            generator.line_width == width,
            goal == gen_from(initial_gen(), toks, 0, text@, width as nat),
            gen_from(generator.view(), toks, token_index as int, text@, width as nat) == goal,
            forall|k: int| 0 <= k < toks.len() ==> (#[trigger] toks[k] matches Token::Word { start, end } ==> start <= end <= text@.len()),
        decreases n - token_index,
    {
        let ghost st = generator.view();
        let ghost k = token_index as int;
        let mut next = token_index + 1;
        match mark_down_tokens[token_index] {
            Token::Asterisk => {
                if generator.italic {
                    generator.italic = false;
                } else if has_token(token_index + 1, &mark_down_tokens, Token::Asterisk) {
                    generator.italic = true;
                } else {
                    generator.gen_cell('*');
                }
            },
            Token::DoubleAsterisk => {
                if generator.bold {
                    generator.bold = false;
                } else if has_token(token_index + 1, &mark_down_tokens, Token::DoubleAsterisk) {
                    generator.bold = true;
                } else {
                    generator.gen_cell('*');
                    generator.gen_cell('*');
                }
            },
            Token::PoundSign => {
                if (token_index == 0 || mark_down_tokens[token_index - 1] == Token::NewLine) && token_index + 1 < n
                    && mark_down_tokens[token_index + 1] == Token::Space {
                    next = token_index + 2;
                    generator.header = true;
                } else {
                    generator.gen_cell('#');
                }
            },
            Token::Space => {
                generator.gen_cell(' ');
            },
            Token::Word { start, end } => {
                let word_len = end - start;
                if word_len >= generator.line_width || generator.cell_line.len() >= generator.line_width - word_len {
                    generator.end_line();
                }
                generator.gen_word(&text, start, end);
            },
            Token::NewLine => {
                generator.end_line();
                generator.header = false;
            },
        }
        proof {
            assert(generator.view() == gen_step(st, toks, k, text@, width as nat));
            assert(next == next_token(toks, k));
        }
        token_index = next;
    }
    let mut cells = generator.cell_buffer;
    if generator.cell_line.len() > 0 {
        let ghost before = grid_view(cells@);
        cells.push(generator.cell_line);
        proof {
            assert(grid_view(cells@) =~= before.push(goal.line));
        }
    }
    proof {
        assert(grid_view(cells@) == render_rows(text@, width as nat));
        if width > 0 {
            lemma_render_rows_fit_width(text@, width as nat);
            assert forall|i: int| 0 <= i < cells@.len() implies (#[trigger] cells@[i])@.len() <= width by {
                assert(grid_view(cells@)[i] == cells@[i]@);
            }
        }
    }
    CellPanel { cells, fitted_buffer: Vec::new(), box_color: None, index: 0, width, height, offset_x: 0, offset_y: 0 }
}

} // verus!
