//! Menu project files: which widget names are page roots, the token reader of the
//! project text, and the parser's token cursor with its colour and block readers.
use vstd::prelude::*;
use vstd::string::StringExecFns;
use vstd::std_specs::iter::IteratorSpec;
use crate::text::{parse_int, parsed_i32, trimmed, is_white_space, str_eq};
use crate::input::{set_next_sequence, SeqState};

verus! {

/// A colour with alpha.
#[derive(Clone, Copy, PartialEq, Eq, Structural)]
pub struct RGBA {
    pub r: u8,
    pub g: u8,
    pub b: u8,
    pub a: u8,
}

/// The widgets that root a page of the menu.
pub open spec fn page_root_name(n: Seq<char>) -> bool {
    ||| n == "BranchRoot"@
    ||| n == "GTTopRoot"@
    ||| n == "TopRoot"@
    ||| n == "OnlineRoot"@
    ||| n == "SelectRoomRoot"@
    ||| n == "DrivingModeRoot"@
    ||| n == "CourseRoot"@
    ||| n == "CarRoot"@
    ||| n == "DealerRoot"@
    ||| n == "BuyCarRoot"@
    ||| n == "TradeRoot"@
    ||| n == "TradeCarRoot"@
    ||| n == "ShareRoot"@
    ||| n == "LicenseRoot"@
    ||| n == "LicenseCategoryRoot"@
    ||| n == "LicenseMapRoot"@
    ||| n == "LicenseFirstStage"@
    ||| n == "LicenseSecondStage"@
    ||| n == "StatusRoot"@
    ||| n == "LogsRoot"@
    ||| n == "ReplayRoot"@
    ||| n == "GameDataEditRoot"@
}

/// Whether `name` roots a page (see `page_root_name`).
pub fn is_page_root(name: &str) -> (r: bool)
    ensures
        r == page_root_name(name@),
{
    str_eq(name, "BranchRoot") || str_eq(name, "GTTopRoot") || str_eq(name, "TopRoot") || str_eq(
        name,
        "OnlineRoot",
    ) || str_eq(name, "SelectRoomRoot") || str_eq(name, "DrivingModeRoot") || str_eq(
        name,
        "CourseRoot",
    ) || str_eq(name, "CarRoot") || str_eq(name, "DealerRoot") || str_eq(name, "BuyCarRoot")
        || str_eq(name, "TradeRoot") || str_eq(name, "TradeCarRoot") || str_eq(name, "ShareRoot")
        || str_eq(name, "LicenseRoot") || str_eq(name, "LicenseCategoryRoot") || str_eq(
        name,
        "LicenseMapRoot",
    ) || str_eq(name, "LicenseFirstStage") || str_eq(name, "LicenseSecondStage") || str_eq(
        name,
        "StatusRoot",
    ) || str_eq(name, "LogsRoot") || str_eq(name, "ReplayRoot") || str_eq(name, "GameDataEditRoot")
}

/// The widgets shared between pages.
pub open spec fn shared_root_name(n: Seq<char>) -> bool {
    ||| n == "DetailPopup"@
    ||| n == "Tooltip"@
    ||| n == "Pulldown"@
    ||| n == "Slider"@
    ||| n == "Buttons"@
    ||| n == "ActorCollection"@
}

/// Whether `name` is a shared widget root (see `shared_root_name`).
pub fn is_shared_root(name: &str) -> (r: bool)
    ensures
        r == shared_root_name(name@),
{
    str_eq(name, "DetailPopup") || str_eq(name, "Tooltip") || str_eq(name, "Pulldown") || str_eq(
        name,
        "Slider",
    ) || str_eq(name, "Buttons") || str_eq(name, "ActorCollection")
}

/// The token at `p`, if any.
pub open spec fn token_at(ts: Seq<Seq<char>>, p: int) -> Option<Seq<char>> {
    if 0 <= p < ts.len() {
        Some(ts[p])
    } else {
        None
    }
}

/// The position after expecting `e` at `p`: past it when it is there, else `p`.
pub open spec fn after_expect(ts: Seq<Seq<char>>, p: int, e: Seq<char>) -> int {
    if token_at(ts, p) == Some(e) {
        p + 1
    } else {
        p
    }
}

/// The token at `p`, or the empty text past the end.
pub open spec fn token_text(ts: Seq<Seq<char>>, p: int) -> Seq<char> {
    match token_at(ts, p) {
        Some(t) => t,
        None => Seq::empty(),
    }
}

/// The integer a token holds (0 when it holds none, or when there is no token).
pub open spec fn int_token(ts: Seq<Seq<char>>, p: int) -> i32 {
    let t = match token_at(ts, p) {
        Some(t) => t,
        None => Seq::empty(),
    };
    match parsed_i32(trimmed(t)) {
        Some(v) => v,
        None => 0,
    }
}

/// Where a block whose opening brace was read ends: after the brace that closes it
/// (depth `d` counts the braces still open), or at the end of the tokens.
pub open spec fn block_end(ts: Seq<Seq<char>>, p: int, d: int) -> int
    decreases ts.len() - p,
{
    if d <= 0 || p >= ts.len() || p < 0 {
        p
    } else if ts[p] == "{"@ {
        block_end(ts, p + 1, d + 1)
    } else if ts[p] == "}"@ {
        block_end(ts, p + 1, d - 1)
    } else {
        block_end(ts, p + 1, d)
    }
}

/// A cursor over the tokens of a project file.
pub struct MProjectParser {
    tokens: Vec<String>,
    pos: usize,
    depth: u32,
}

impl MProjectParser {
    /// The tokens.
    pub closed spec fn tokens_view(self) -> Seq<Seq<char>> {
        self.tokens@.map_values(|s: String| s@)
    }

    /// The position of the next token.
    pub closed spec fn position(self) -> int {
        self.pos as int
    }

    /// A position is never negative.
    pub proof fn lemma_position_nonneg(self)
        ensures
            self.position() >= 0,
    {
    }

    /// How many child lists are open.
    pub closed spec fn nesting(self) -> nat {
        self.depth as nat
    }

    /// A cursor at the first of `t`.
    pub fn new(t: Vec<String>) -> (p: Self)
        ensures
            p.tokens_view() == t@.map_values(|s: String| s@),
            p.position() == 0,
            p.nesting() == 0,
    {
        MProjectParser { tokens: t, pos: 0, depth: 0 }
    }

    /// The next token, without moving.
    pub fn peek(&self) -> (r: Option<&str>)
        ensures
            match r {
                Some(t) => token_at(self.tokens_view(), self.position()) == Some(t@),
                None => token_at(self.tokens_view(), self.position()) is None,
            },
    {
        if self.pos < self.tokens.len() {
            Some(self.tokens[self.pos].as_str())
        } else {
            None
        }
    }

    /// The next token, moving past it (the position moves on at the end too).
    pub fn consume(&mut self) -> (r: Option<String>)
        requires
            old(self).position() < usize::MAX,
        ensures
            final(self).nesting() == old(self).nesting(),
            final(self).tokens_view() == old(self).tokens_view(),
            final(self).position() == old(self).position() + 1,
            match r {
                Some(t) => token_at(old(self).tokens_view(), old(self).position()) == Some(t@),
                None => token_at(old(self).tokens_view(), old(self).position()) is None,
            },
    {
        let t = if self.pos < self.tokens.len() {
            Some(self.tokens[self.pos].clone())
        } else {
            None
        };
        self.pos = self.pos + 1;
        t
    }

    /// Moves past the next token when it is `e`; tells whether it was.
    pub fn expect(&mut self, e: &str) -> (r: bool)
        ensures
            final(self).nesting() == old(self).nesting(),
            final(self).tokens_view() == old(self).tokens_view(),
            r == (token_at(old(self).tokens_view(), old(self).position()) == Some(e@)),
            final(self).position() == after_expect(old(self).tokens_view(), old(self).position(), e@),
            old(self).position() <= final(self).position() <= old(self).position() + 1,
            old(self).position() >= old(self).tokens_view().len() ==> final(self).position()
                == old(self).position(),
    {
        if self.pos < self.tokens.len() && str_eq(self.tokens[self.pos].as_str(), e) {
            self.pos = self.pos + 1;
            true
        } else {
            false
        }
    }

    /// The integer of the next token (0 for none), moving past it.
    pub(crate) fn int_field(&mut self) -> (v: i32)
        requires
            old(self).position() < usize::MAX,
        ensures
            final(self).nesting() == old(self).nesting(),
            final(self).tokens_view() == old(self).tokens_view(),
            final(self).position() == old(self).position() + 1,
            v == int_token(old(self).tokens_view(), old(self).position()),
    {
        let t = match self.consume() {
            Some(t) => t,
            None => String::new(),
        };
        parse_int(t.as_str())
    }

    /// Moves past the next token.
    pub(crate) fn skip_token(&mut self)
        requires
            old(self).position() < usize::MAX,
        ensures
            final(self).tokens_view() == old(self).tokens_view(),
            final(self).nesting() == old(self).nesting(),
            final(self).position() == old(self).position() + 1,
    {
        self.pos = self.pos + 1;
    }

    /// Whether the next token is `e`.
    pub(crate) fn at_token(&self, e: &str) -> (r: bool)
        ensures
            r == (token_at(self.tokens_view(), self.position()) == Some(e@)),
    {
        self.pos < self.tokens.len() && str_eq(self.tokens[self.pos].as_str(), e)
    }

    /// Whether no token is left.
    pub(crate) fn at_end(&self) -> (r: bool)
        ensures
            r == !(self.position() < self.tokens_view().len()),
    {
        self.pos >= self.tokens.len()
    }

    /// Whether the child lists open are more than 40.
    pub(crate) fn nested_too_deep(&self) -> (r: bool)
        ensures
            r == (self.nesting() > 40),
    {
        self.depth > 40
    }

    /// Opens a child list.
    pub(crate) fn enter_list(&mut self)
        requires
            old(self).nesting() <= 40,
        ensures
            final(self).tokens_view() == old(self).tokens_view(),
            final(self).position() == old(self).position(),
            final(self).nesting() == old(self).nesting() + 1,
    {
        self.depth = self.depth + 1;
    }

    /// Closes a child list.
    pub(crate) fn leave_list(&mut self)
        requires
            old(self).nesting() >= 1,
        ensures
            final(self).tokens_view() == old(self).tokens_view(),
            final(self).position() == old(self).position(),
            final(self).nesting() == old(self).nesting() - 1,
    {
        self.depth = self.depth - 1;
    }

    /// The next token (empty when there is none), moving past it.
    pub(crate) fn text_field(&mut self) -> (t: String)
        requires
            old(self).position() < usize::MAX,
        ensures
            final(self).tokens_view() == old(self).tokens_view(),
            final(self).position() == old(self).position() + 1,
            final(self).nesting() == old(self).nesting(),
            t@ == token_text(old(self).tokens_view(), old(self).position()),
    {
        match self.consume() {
            Some(t) => t,
            None => String::new(),
        }
    }

    /// Whether the next token closes a list (or there is none).
    pub(crate) fn at_list_end(&self) -> (r: bool)
        ensures
            r == !(0 <= self.position() < self.tokens_view().len() && self.tokens_view()[self.position()] != "}"@),
    {
        if self.pos < self.tokens.len() {
            let t = self.tokens[self.pos].as_str();
            proof {
                assert(self.tokens_view()[self.position()] == t@);
            }
            str_eq(t, "}")
        } else {
            true
        }
    }

    /// Moves past a list header `[ n ] {` (see `list_open`).
    pub(crate) fn list_header(&mut self)
        requires
            old(self).position() < usize::MAX - 8,
        ensures
            final(self).tokens_view() == old(self).tokens_view(),
            final(self).nesting() == old(self).nesting(),
            final(self).position() == crate::project::list_open(old(self).tokens_view(), old(self).position()),
            old(self).position() < final(self).position() <= (if old(self).position() < old(self).tokens_view().len() {
                old(self).tokens_view().len() as int
            } else {
                old(self).position()
            }) + 1,
    {
        self.expect("[");
        let _ = self.consume();
        self.expect("]");
        self.expect("{");
    }

    /// Reads `RGBA { r g b a }`: each brace or keyword is skipped when present, each
    /// channel is the low byte of its token's integer.
    pub fn parse_rgba(&mut self) -> (c: RGBA)
        requires
            old(self).position() < usize::MAX - 8,
        ensures
            final(self).nesting() == old(self).nesting(),
            final(self).tokens_view() == old(self).tokens_view(),
            ({
                let ts = old(self).tokens_view();
                let p1 = after_expect(ts, old(self).position(), "RGBA"@);
                let p2 = after_expect(ts, p1, "{"@);
                &&& c.r == int_token(ts, p2) as u8
                &&& c.g == int_token(ts, p2 + 1) as u8
                &&& c.b == int_token(ts, p2 + 2) as u8
                &&& c.a == int_token(ts, p2 + 3) as u8
                &&& final(self).position() == after_expect(ts, p2 + 4, "}"@)
            }),
            old(self).position() < final(self).position() <= (if old(self).position() < old(self).tokens_view().len() {
                old(self).tokens_view().len() as int
            } else {
                old(self).position()
            }) + 4,
    {
        self.expect("RGBA");
        self.expect("{");
        let r = self.int_field() as u8;
        let g = self.int_field() as u8;
        let b = self.int_field() as u8;
        let a = self.int_field() as u8;
        self.expect("}");
        RGBA { r, g, b, a }
    }

    /// Moves past the rest of a block whose opening brace was read (see `block_end`).
    pub fn skip_block(&mut self)
        requires
            old(self).tokens_view().len() < i32::MAX,
        ensures
            final(self).nesting() == old(self).nesting(),
            final(self).tokens_view() == old(self).tokens_view(),
            final(self).position() == block_end(old(self).tokens_view(), old(self).position(), 1),
    {
        let ghost ts = self.tokens_view();
        let ghost start = self.position();
        let mut d: i32 = 1;
        while d > 0 && self.pos < self.tokens.len()
            invariant
                self.tokens_view() == ts,
                self.depth == old(self).depth,
                self.tokens@.len() == ts.len(),
                ts.len() < i32::MAX,
                0 <= d <= self.pos - start + 1,
                0 <= start <= self.pos,
                self.pos > start ==> self.pos <= ts.len(),
                block_end(ts, start, 1) == block_end(ts, self.pos as int, d as int),
            decreases ts.len() - self.pos,
        {
            let t = self.tokens[self.pos].as_str();
            proof {
                assert(ts[self.pos as int] == t@);
            }
            if str_eq(t, "{") {
                d = d + 1;
            } else if str_eq(t, "}") {
                d = d - 1;
            }
            self.pos = self.pos + 1;
        }
    }
}

/// The character an escape `\c` in a quoted token stands for.
pub open spec fn unescape(c: char) -> char {
    if c == 'n' {
        '\n'
    } else if c == 't' {
        '\t'
    } else if c == 'r' {
        '\r'
    } else if c == '0' {
        '\0'
    } else {
        c
    }
}

/// A brace or bracket: a token of its own.
pub open spec fn is_bracket(c: char) -> bool {
    c == '{' || c == '}' || c == '[' || c == ']'
}

/// The tokens of `cs` read from `i` on, after `toks`, in state `mode` (0 between tokens,
/// 1 inside a quote closed by `q`, 2 inside a word) with the token so far `acc`.
/// White space separates tokens; braces and brackets are tokens; a quote (`"` or `'`)
/// runs to the same quote, with backslash escapes, or to the end; a word runs to white
/// space or a brace or bracket.
pub open spec fn lex(
    cs: Seq<char>,
    i: int,
    mode: int,
    q: char,
    acc: Seq<char>,
    toks: Seq<Seq<char>>,
) -> Seq<Seq<char>>
    decreases cs.len() - i,
{
    if i >= cs.len() || i < 0 {
        if mode == 0 {
            toks
        } else {
            toks.push(acc)
        }
    } else {
        let c = cs[i];
        if mode == 1 {
            if c == q {
                lex(cs, i + 1, 0, q, Seq::empty(), toks.push(acc))
            } else if c == '\\' {
                if i + 1 < cs.len() {
                    lex(cs, i + 2, 1, q, acc.push(unescape(cs[i + 1])), toks)
                } else {
                    lex(cs, i + 1, 1, q, acc, toks)
                }
            } else {
                lex(cs, i + 1, 1, q, acc.push(c), toks)
            }
        } else if mode == 2 && !is_white_space(c) && !is_bracket(c) {
            lex(cs, i + 1, 2, q, acc.push(c), toks)
        } else {
            let t = if mode == 2 {
                toks.push(acc)
            } else {
                toks
            };
            if is_white_space(c) {
                lex(cs, i + 1, 0, q, Seq::empty(), t)
            } else if is_bracket(c) {
                lex(cs, i + 1, 0, q, Seq::empty(), t.push(seq![c]))
            } else if c == '"' || c == '\'' {
                lex(cs, i + 1, 1, c, Seq::empty(), t)
            } else {
                lex(cs, i + 1, 2, q, seq![c], t)
            }
        }
    }
}

/// Inside a quote closed by `q`, with no escape and no `q` before the `q` at `j`, the
/// text read so far and the characters up to `j` make one token, and reading goes on
/// between tokens after `j`.
proof fn lemma_quote_run(
    cs: Seq<char>,
    k: int,
    j: int,
    q: char,
    acc: Seq<char>,
    toks: Seq<Seq<char>>,
)
    requires
        0 <= k <= j < cs.len(),
        cs[j] == q,
        forall|t: int| k <= t < j ==> cs[t] != q && cs[t] != '\\',
    ensures
        lex(cs, k, 1, q, acc, toks) == lex(cs, j + 1, 0, q, Seq::empty(), toks.push(acc + cs.subrange(k, j))),
    decreases j - k,
{
    if k == j {
        assert(acc + cs.subrange(j, j) =~= acc);
    } else {
        lemma_quote_run(cs, k + 1, j, q, acc.push(cs[k]), toks);
        assert(acc.push(cs[k]) + cs.subrange(k + 1, j) =~= acc + cs.subrange(k, j));
    }
}

/// A quoted string met between tokens, from the quote at `i` to the same quote at `j`
/// with no escape inside, is exactly one token: its text, empty for two quotes in a row;
/// the tokens before it stay and the rest is read after it.
pub proof fn lemma_quoted_token(cs: Seq<char>, i: int, j: int, q: char, toks: Seq<Seq<char>>)
    requires
        0 <= i < j < cs.len(),
        cs[i] == '"' || cs[i] == '\'',
        cs[j] == cs[i],
        forall|t: int| i < t < j ==> cs[t] != cs[i] && cs[t] != '\\',
    ensures
        lex(cs, i, 0, q, Seq::empty(), toks) == lex(
            cs,
            j + 1,
            0,
            cs[i],
            Seq::empty(),
            toks.push(cs.subrange(i + 1, j)),
        ),
{
    lemma_quote_run(cs, i + 1, j, cs[i], Seq::empty(), toks);
    assert(Seq::<char>::empty() + cs.subrange(i + 1, j) =~= cs.subrange(i + 1, j));
}

/// Inside a word, with no white space and no bracket before `j`, where white space, a
/// bracket or the end follows: the word so far and the characters up to `j` make one
/// token, and reading goes on between tokens at `j`.
proof fn lemma_word_run(cs: Seq<char>, k: int, j: int, q: char, acc: Seq<char>, toks: Seq<Seq<char>>)
    requires
        0 <= k <= j <= cs.len(),
        forall|t: int| k <= t < j ==> !is_white_space(cs[t]) && !is_bracket(cs[t]),
        j == cs.len() || is_white_space(cs[j]) || is_bracket(cs[j]),
    ensures
        lex(cs, k, 2, q, acc, toks) == lex(cs, j, 0, q, Seq::empty(), toks.push(acc + cs.subrange(k, j))),
    decreases j - k,
{
    if k == j {
        assert(acc + cs.subrange(j, j) =~= acc);
    } else {
        lemma_word_run(cs, k + 1, j, q, acc.push(cs[k]), toks);
        assert(acc.push(cs[k]) + cs.subrange(k + 1, j) =~= acc + cs.subrange(k, j));
    }
}

/// A word met between tokens (a first character that is not white space, a bracket or a
/// quote, then anything but white space and brackets) is exactly one token, up to the
/// white space, bracket or end that follows it.
pub proof fn lemma_word_token(cs: Seq<char>, i: int, j: int, q: char, toks: Seq<Seq<char>>)
    requires
        0 <= i < j <= cs.len(),
        cs[i] != '"' && cs[i] != '\'',
        forall|t: int| i <= t < j ==> !is_white_space(cs[t]) && !is_bracket(cs[t]),
        j == cs.len() || is_white_space(cs[j]) || is_bracket(cs[j]),
    ensures
        lex(cs, i, 0, q, Seq::empty(), toks) == lex(cs, j, 0, q, Seq::empty(), toks.push(cs.subrange(i, j))),
{
    lemma_word_run(cs, i + 1, j, q, seq![cs[i]], toks);
    assert(seq![cs[i]] + cs.subrange(i + 1, j) =~= cs.subrange(i, j));
}

/// The tokens of a project file's text.
pub open spec fn tokens_of(s: Seq<char>) -> Seq<Seq<char>> {
    lex(s, 0, 0, ' ', Seq::empty(), Seq::empty())
}

/// The characters of `s`.
pub(crate) fn chars_of(s: &str) -> (cs: Vec<char>)
    ensures
        cs@ == s@,
{
    broadcast use vstd::string::group_string_axioms;

    let mut cs: Vec<char> = Vec::new();
    let mut it = s.chars();
    loop
        invariant
            cs@ + IteratorSpec::remaining(&it) == s@,
            IteratorSpec::decrease(&it) is Some,
        ensures
            cs@ == s@,
        decreases IteratorSpec::decrease(&it)->0,
    {
        let ghost before = IteratorSpec::remaining(&it);
        match it.next() {
            Some(c) => {
                proof {
                    assert(cs@.push(c) + before.drop_first() =~= cs@ + before);
                }
                cs.push(c);
            },
            None => {
                proof {
                    assert(cs@ + before =~= cs@);
                }
                break;
            },
        }
    }
    cs
}

/// `s` as a one-character string.
fn char_string(c: char) -> (s: String)
    ensures
        s@ == seq![c],
{
    let mut s = String::new();
    s.push(c);
    proof {
        assert(Seq::<char>::empty().push(c) =~= seq![c]);
    }
    s
}

/// Splits a project file's text into tokens (see `lex`).
pub fn tokenize(source: &str) -> (tokens: Vec<String>)
    ensures
        tokens@.map_values(|t: String| t@) == tokens_of(source@),
{
    let cs = chars_of(source);
    let n = cs.len();
    let mut tokens: Vec<String> = Vec::new();
    let mut acc = String::new();
    let mut mode: u8 = 0;
    let mut q: char = ' ';
    let mut i: usize = 0;
    proof {
        assert(tokens@.map_values(|t: String| t@) =~= Seq::<Seq<char>>::empty());
    }
    while i < n
        invariant
            n == cs@.len(),
            cs@ == source@,
            mode <= 2,
            mode == 0 ==> acc@ == Seq::<char>::empty(),
            i <= n + 1,
            tokens_of(source@) == lex(
                cs@,
                i as int,
                mode as int,
                q,
                acc@,
                tokens@.map_values(|t: String| t@),
            ),
        decreases n - i,
    {
        let c = cs[i];
        let ghost tv = tokens@.map_values(|t: String| t@);
        let ghost accv = acc@;
        if mode == 1 {
            if c == q {
                tokens.push(acc);
                proof {
                    assert(tokens@.map_values(|t: String| t@) =~= tv.push(accv));
                }
                acc = String::new();
                mode = 0;
                i += 1;
            } else if c == '\\' {
                if i + 1 < n {
                    let e = cs[i + 1];
                    let u = if e == 'n' {
                        '\n'
                    } else if e == 't' {
                        '\t'
                    } else if e == 'r' {
                        '\r'
                    } else if e == '0' {
                        '\0'
                    } else {
                        e
                    };
                    acc.push(u);
                    i += 2;
                } else {
                    i += 1;
                }
            } else {
                acc.push(c);
                i += 1;
            }
        } else if mode == 2 && !crate::text::is_white_space_char(c) && !(c == '{' || c == '}'
            || c == '[' || c == ']') {
            acc.push(c);
            i += 1;
        } else {
            if mode == 2 {
                tokens.push(acc);
                proof {
                    assert(tokens@.map_values(|t: String| t@) =~= tv.push(accv));
                }
                acc = String::new();
            }
            let ghost tv2 = tokens@.map_values(|t: String| t@);
            if crate::text::is_white_space_char(c) {
                mode = 0;
            } else if c == '{' || c == '}' || c == '[' || c == ']' {
                let cstr = char_string(c);
                tokens.push(cstr);
                proof {
                    assert(tokens@.map_values(|t: String| t@) =~= tv2.push(seq![c]));
                }
                mode = 0;
            } else if c == '"' || c == '\'' {
                q = c;
                acc = String::new();
                mode = 1;
            } else {
                acc = char_string(c);
                mode = 2;
            }
            i += 1;
        }
    }
    let ghost tv = tokens@.map_values(|t: String| t@);
    let ghost accv = acc@;
    if mode != 0 {
        tokens.push(acc);
        proof {
            assert(tokens@.map_values(|t: String| t@) =~= tv.push(accv));
        }
    }
    tokens
}

/// Which widget of the menu page has the focus, and whether the page is done.
pub struct FocusState {
    pub focus_index: usize,
    pub focus_widgets: Vec<String>,
    pub finished: bool,
    pub active_page: String,
}

/// The focus index after a move in `dir` among `len` widgets: "up" and "left" go back,
/// "down" and "right" go forward, both wrapping around; anything else, or no widget,
/// leaves it.
pub open spec fn focus_after(idx: int, len: int, dir: Seq<char>) -> int {
    if len == 0 {
        idx
    } else if dir == "up"@ || dir == "left"@ {
        if idx > 0 {
            idx - 1
        } else {
            len - 1
        }
    } else if dir == "down"@ || dir == "right"@ {
        if idx < len - 1 {
            idx + 1
        } else {
            0
        }
    } else {
        idx
    }
}

/// The focus after the navigation buttons held in `keys`: UP, DOWN, LEFT, RIGHT in turn.
pub open spec fn focus_after_keys(idx: int, len: int, keys: u32) -> int {
    let a = if (keys >> 2u32) & 1 != 0 {
        focus_after(idx, len, "up"@)
    } else {
        idx
    };
    let b = if (keys >> 4u32) & 1 != 0 {
        focus_after(a, len, "down"@)
    } else {
        a
    };
    let c = if (keys >> 5u32) & 1 != 0 {
        focus_after(b, len, "left"@)
    } else {
        b
    };
    if (keys >> 3u32) & 1 != 0 {
        focus_after(c, len, "right"@)
    } else {
        c
    }
}

impl FocusState {
    /// No page, no focusable widget, not finished.
    pub fn new() -> (f: Self)
        ensures
            f.focus_index == 0,
            f.focus_widgets@.len() == 0,
            !f.finished,
            f.active_page@ == Seq::<char>::empty(),
    {
        FocusState { focus_index: 0, focus_widgets: Vec::new(), finished: false, active_page: String::new() }
    }

    /// Moves the focus (see `focus_after`).
    pub fn navigate_focus(&mut self, direction: &str)
        ensures
            final(self).focus_index == focus_after(
                old(self).focus_index as int,
                old(self).focus_widgets@.len() as int,
                direction@,
            ),
            final(self).focus_widgets == old(self).focus_widgets,
            final(self).finished == old(self).finished,
            final(self).active_page == old(self).active_page,
    {
        let len = self.focus_widgets.len();
        if len == 0 {
            return;
        }
        if str_eq(direction, "up") || str_eq(direction, "left") {
            if self.focus_index > 0 {
                self.focus_index = self.focus_index - 1;
            } else {
                self.focus_index = len - 1;
            }
        } else if str_eq(direction, "down") || str_eq(direction, "right") {
            if self.focus_index < len - 1 {
                self.focus_index = self.focus_index + 1;
            } else {
                self.focus_index = 0;
            }
        }
    }

    /// Handles a frame's buttons: the navigation buttons move the focus (see
    /// `focus_after_keys`); CROSS or CIRCLE finishes the page.
    pub fn handle_keys(&mut self, key_state: u32)
        ensures
            final(self).focus_index == focus_after_keys(
                old(self).focus_index as int,
                old(self).focus_widgets@.len() as int,
                key_state,
            ),
            final(self).finished == (old(self).finished || (key_state >> 10u32) & 1 != 0 || (key_state
                >> 9u32) & 1 != 0),
            final(self).focus_widgets == old(self).focus_widgets,
            final(self).active_page == old(self).active_page,
    {
        if (key_state >> 2u32) & 1 != 0 {
            self.navigate_focus("up");
        }
        if (key_state >> 4u32) & 1 != 0 {
            self.navigate_focus("down");
        }
        if (key_state >> 5u32) & 1 != 0 {
            self.navigate_focus("left");
        }
        if (key_state >> 3u32) & 1 != 0 {
            self.navigate_focus("right");
        }
        if (key_state >> 10u32) & 1 != 0 {
            self.finished = true;
        }
        if (key_state >> 9u32) & 1 != 0 {
            self.finished = true;
        }
    }

    /// The name of the focused widget, if the index points at one.
    pub fn focused_widget(&self) -> (r: Option<String>)
        ensures
            match r {
                Some(n) => self.focus_index < self.focus_widgets@.len() && n@
                    == self.focus_widgets@[self.focus_index as int]@,
                None => self.focus_index >= self.focus_widgets@.len(),
            },
    {
        if self.focus_index < self.focus_widgets.len() {
            Some(self.focus_widgets[self.focus_index].clone())
        } else {
            None
        }
    }

    /// Whether the page is done.
    pub fn is_finished(&self) -> (r: bool)
        ensures
            r == self.finished,
    {
        self.finished
    }

    /// Starts the page over.
    pub fn reset_finished(&mut self)
        ensures
            !final(self).finished,
            final(self).focus_index == old(self).focus_index,
            final(self).focus_widgets == old(self).focus_widgets,
            final(self).active_page == old(self).active_page,
    {
        self.finished = false;
    }

    /// Shows another page: no focusable widget yet, the focus at the first.
    pub fn go_to_page(&mut self, page: &str)
        ensures
            final(self).active_page@ == page@,
            final(self).focus_index == 0,
            final(self).focus_widgets@.len() == 0,
            final(self).finished == old(self).finished,
    {
        self.active_page = String::from_str(page);
        self.focus_index = 0;
        self.focus_widgets.clear();
    }
}

/// The page that activating the widget `focused` on the page `page` leads to, if any.
pub open spec fn nav_next(page: Seq<char>, focused: Seq<char>) -> Option<Seq<char>> {
    if page == "BranchRoot"@ {
        Some("GTTopRoot"@)
    } else if page == "GTTopRoot"@ {
        if focused == "CarTown"@ {
            Some("DealerRoot"@)
        } else if focused == "Course"@ {
            Some("CourseRoot"@)
        } else if focused == "LicenseCenter"@ {
            Some("LicenseRoot"@)
        } else if focused == "Status"@ {
            Some("StatusRoot"@)
        } else if focused == "Options"@ {
            None
        } else {
            Some("TopRoot"@)
        }
    } else if page == "TopRoot"@ {
        if focused == "DrivingModeSelect"@ {
            Some("DrivingModeRoot"@)
        } else if focused == "CarSelect"@ {
            Some("CarRoot"@)
        } else if focused == "CourseSelect"@ {
            Some("CourseRoot"@)
        } else if focused == "Exit"@ {
            Some("BranchRoot"@)
        } else {
            None
        }
    } else if page == "DrivingModeRoot"@ {
        if focused == "SingleRace"@ || focused == "TimeAttack"@ || focused == "DriftAttack"@ {
            Some("CarRoot"@)
        } else if focused == "AdHocBattle"@ {
            Some("OnlineRoot"@)
        } else {
            Some("TopRoot"@)
        }
    } else if page == "CarRoot"@ || page == "CourseRoot"@ || page == "DealerRoot"@ || page
        == "OnlineRoot"@ || page == "SelectRoomRoot"@ || page == "LicenseRoot"@ || page
        == "LicenseCategoryRoot"@ || page == "StatusRoot"@ || page == "LogsRoot"@ || page
        == "ReplayRoot"@ {
        None
    } else {
        Some("TopRoot"@)
    }
}

/// Activating "Start" on the top page starts a race.
pub open spec fn nav_starts_race(page: Seq<char>, focused: Seq<char>) -> bool {
    page == "TopRoot"@ && focused == "Start"@
}

/// `nav_next` for strings in hand.
pub fn page_after(page: &str, focused: &str) -> (r: Option<&'static str>)
    ensures
        match r {
            Some(p) => nav_next(page@, focused@) == Some(p@),
            None => nav_next(page@, focused@) is None,
        },
{
    if str_eq(page, "BranchRoot") {
        Some("GTTopRoot")
    } else if str_eq(page, "GTTopRoot") {
        if str_eq(focused, "CarTown") {
            Some("DealerRoot")
        } else if str_eq(focused, "Course") {
            Some("CourseRoot")
        } else if str_eq(focused, "LicenseCenter") {
            Some("LicenseRoot")
        } else if str_eq(focused, "Status") {
            Some("StatusRoot")
        } else if str_eq(focused, "Options") {
            None
        } else {
            Some("TopRoot")
        }
    } else if str_eq(page, "TopRoot") {
        if str_eq(focused, "DrivingModeSelect") {
            Some("DrivingModeRoot")
        } else if str_eq(focused, "CarSelect") {
            Some("CarRoot")
        } else if str_eq(focused, "CourseSelect") {
            Some("CourseRoot")
        } else if str_eq(focused, "Exit") {
            Some("BranchRoot")
        } else {
            None
        }
    } else if str_eq(page, "DrivingModeRoot") {
        if str_eq(focused, "SingleRace") || str_eq(focused, "TimeAttack") || str_eq(
            focused,
            "DriftAttack",
        ) {
            Some("CarRoot")
        } else if str_eq(focused, "AdHocBattle") {
            Some("OnlineRoot")
        } else {
            Some("TopRoot")
        }
    } else if str_eq(page, "CarRoot") || str_eq(page, "CourseRoot") || str_eq(page, "DealerRoot")
        || str_eq(page, "OnlineRoot") || str_eq(page, "SelectRoomRoot") || str_eq(
        page,
        "LicenseRoot",
    ) || str_eq(page, "LicenseCategoryRoot") || str_eq(page, "StatusRoot") || str_eq(
        page,
        "LogsRoot",
    ) || str_eq(page, "ReplayRoot") {
        None
    } else {
        Some("TopRoot")
    }
}

/// Acts on the activation of the widget `focused`: shows the page it leads to (see
/// `nav_next`) unless that is the page shown, and, for "Start" on the top page, makes
/// the race the next sequence.
pub fn handle_page_navigation(ui: &mut FocusState, seq: &mut SeqState, focused: &str)
    ensures
        match nav_next(old(ui).active_page@, focused@) {
            Some(p) => if p != old(ui).active_page@ {
                &&& final(ui).active_page@ == p
                &&& final(ui).focus_index == 0
                &&& final(ui).focus_widgets@.len() == 0
                &&& final(ui).finished == old(ui).finished
            } else {
                *final(ui) == *old(ui)
            },
            None => *final(ui) == *old(ui),
        },
        final(seq).current_sequence == (if nav_starts_race(old(ui).active_page@, focused@) {
            4
        } else {
            old(seq).current_sequence
        }),
        final(seq).current_project == old(seq).current_project,
        final(seq).finished == old(seq).finished,
        final(seq).mode == old(seq).mode,
        final(seq).current_mode == old(seq).current_mode,
{
    if str_eq(ui.active_page.as_str(), "TopRoot") && str_eq(focused, "Start") {
        set_next_sequence(seq, 4);
    }
    match page_after(ui.active_page.as_str(), focused) {
        Some(next) => {
            if !str_eq(next, ui.active_page.as_str()) {
                ui.go_to_page(next);
            }
        },
        None => {},
    }
}

/// A frame of menu input: the buttons move the focus and may finish the page (see
/// `FocusState::handle_keys`); when that finishes the page, the focused widget, if any,
/// is activated (see `handle_page_navigation`) and the page starts over.
pub fn handle_menu_input(ui: &mut FocusState, seq: &mut SeqState, key_state: u32)
    ensures
        ({
            let idx = focus_after_keys(
                old(ui).focus_index as int,
                old(ui).focus_widgets@.len() as int,
                key_state,
            );
            let fin = old(ui).finished || (key_state >> 10u32) & 1 != 0 || (key_state >> 9u32) & 1
                != 0;
            let w = old(ui).focus_widgets@;
            let page = old(ui).active_page@;
            if !old(ui).finished && fin {
                let nav = if 0 <= idx < w.len() {
                    nav_next(page, w[idx]@)
                } else {
                    None
                };
                &&& !final(ui).finished
                &&& (if nav is Some && nav->0 != page {
                    &&& final(ui).active_page@ == nav->0
                    &&& final(ui).focus_index == 0
                    &&& final(ui).focus_widgets@.len() == 0
                } else {
                    &&& final(ui).active_page == old(ui).active_page
                    &&& final(ui).focus_index == idx
                    &&& final(ui).focus_widgets == old(ui).focus_widgets
                })
                &&& final(seq).current_sequence == (if 0 <= idx < w.len() && nav_starts_race(
                    page,
                    w[idx]@,
                ) {
                    4
                } else {
                    old(seq).current_sequence
                })
            } else {
                &&& final(ui).focus_index == idx
                &&& final(ui).finished == fin
                &&& final(ui).focus_widgets == old(ui).focus_widgets
                &&& final(ui).active_page == old(ui).active_page
                &&& final(seq).current_sequence == old(seq).current_sequence
            }
        }),
        final(seq).current_project == old(seq).current_project,
        final(seq).finished == old(seq).finished,
        final(seq).mode == old(seq).mode,
        final(seq).current_mode == old(seq).current_mode,
{
    let prev_finished = ui.is_finished();
    ui.handle_keys(key_state);
    if !prev_finished && ui.is_finished() {
        match ui.focused_widget() {
            Some(focused) => {
                handle_page_navigation(ui, seq, focused.as_str());
            },
            None => {},
        }
        ui.reset_finished();
    }
}

/// Every page that an activation leads to is a page root.
pub proof fn lemma_navigation_reaches_page_roots(page: Seq<char>, focused: Seq<char>)
    ensures
        nav_next(page, focused) matches Some(q) ==> page_root_name(q),
{
}

/// Moving the focus keeps it on a widget, and moving forward then back (or back then
/// forward) returns to the same widget.
pub proof fn lemma_focus_round_trip(idx: int, len: int)
    requires
        0 <= idx < len,
    ensures
        0 <= focus_after(idx, len, "down"@) < len,
        0 <= focus_after(idx, len, "up"@) < len,
        focus_after(focus_after(idx, len, "down"@), len, "up"@) == idx,
        focus_after(focus_after(idx, len, "up"@), len, "down"@) == idx,
{
    reveal_strlit("up");
    reveal_strlit("down");
    reveal_strlit("left");
    reveal_strlit("right");
    assert("up"@.len() == 2 && "left"@.len() == 4 && "down"@.len() == 4 && "right"@.len() == 5);
    assert("down"@ != "left"@) by {
        assert("down"@[0] != "left"@[0]);
    }
}

} // verus!
