//! Turning one logical line of shell text into a [`CommandList`].
//!
//! Scanning splits the text into words and operator tokens. Single quotes
//! suppress all interpretation until the matching quote; double quotes do
//! the same in this grammar. A quote left open at the end of the text is
//! not an error: the line is incomplete and the caller must supply another
//! line (line continuation). Parsing then groups the tokens into commands,
//! pipelines and join operators.
//!
//! The whole process is specified functionally: `scan_from` and
//! `parse_from` define, over sequences of characters and tokens, exactly
//! what the executable scanner and parser produce.

use vstd::prelude::*;

use crate::command::Command;
use crate::command::CommandList;
use crate::command::CommandS;
use crate::command::JoinOperator;
use crate::command::ListEntry;
use crate::command::ListEntryS;
use crate::command::list_wf;
use crate::command::ParseError;
use crate::command::Pipeline;
use crate::command::PipelineS;
use crate::command::RedirectSpec;
use crate::command::RedirectSpecS;
use vstd::string::StrSliceExecFns;
use vstd::string::StringExecFns;

verus! {

/// The redirection operators the scanner recognizes, before their target
/// is known: `<`, `>`, `>>`, and the duplication forms `>&` / `<&`.
#[derive(Clone, Copy, PartialEq, Eq, Structural, Debug)]
pub enum RedirOp {
    Input,
    Output,
    Append,
    Dup,
}

/// One lexical unit of a line: a word (with all quoting already removed),
/// a control operator, or a redirection operator carrying the descriptor
/// it redirects (`2>` carries 2; bare `>` carries 1, bare `<` carries 0).
#[derive(Clone, Debug)]
pub enum Token {
    Word(String),
    Pipe,
    Semi,
    Amp,
    AndIf,
    OrIf,
    Redir { op: RedirOp, fd: u32 },
}

/// Ghost mirror of [`Token`].
pub enum TokenS {
    Word(Seq<char>),
    Pipe,
    Semi,
    Amp,
    AndIf,
    OrIf,
    Redir { op: RedirOp, fd: u32 },
}

impl View for Token {
    type V = TokenS;

    open spec fn view(&self) -> TokenS {
        match self {
            Token::Word(w) => TokenS::Word(w@),
            Token::Pipe => TokenS::Pipe,
            Token::Semi => TokenS::Semi,
            Token::Amp => TokenS::Amp,
            Token::AndIf => TokenS::AndIf,
            Token::OrIf => TokenS::OrIf,
            Token::Redir { op, fd } => TokenS::Redir { op: *op, fd: *fd },
        }
    }
}

/// The quoting state while scanning: outside quotes, inside `'...'`, or
/// inside `"..."`.
#[derive(Clone, Copy, PartialEq, Eq, Structural, Debug)]
pub enum QuoteMode {
    Unquoted,
    InSingle,
    InDouble,
}

/// What scanning a whole line yields: its tokens, or the signal that a
/// quote is still open and the line continues.
pub enum ScanS {
    Pending,
    Toks(Seq<TokenS>),
}

pub open spec fn is_blank(c: char) -> bool {
    c == ' ' || c == '\t' || c == '\n' || c == '\r'
}

pub open spec fn is_digit(c: char) -> bool {
    '0' <= c && c <= '9'
}

pub open spec fn all_digits(s: Seq<char>) -> bool {
    forall|i: int| 0 <= i < s.len() ==> is_digit(#[trigger] s[i])
}

/// A run of characters that the scanner reads as an explicit descriptor
/// number in front of a redirection operator, as in `2>`. The length cap
/// keeps the value well inside `u32`.
pub open spec fn is_fd_text(s: Seq<char>) -> bool {
    1 <= s.len() <= 9 && all_digits(s)
}

pub open spec fn digit_value(c: char) -> nat {
    (c as nat - '0' as nat) as nat
}

/// The number written by a sequence of decimal digits.
pub open spec fn fd_value(s: Seq<char>) -> nat
    decreases s.len(),
{
    if s.len() == 0 {
        0
    } else {
        fd_value(s.drop_last()) * 10 + digit_value(s.last())
    }
}

pub open spec fn pow10(n: nat) -> nat
    decreases n,
{
    if n == 0 {
        1
    } else {
        10 * pow10((n - 1) as nat)
    }
}

pub proof fn lemma_pow10_le(a: nat, b: nat)
    requires
        a <= b,
    ensures
        pow10(a) <= pow10(b),
    decreases b,
{
    if a < b {
        lemma_pow10_le(a, (b - 1) as nat);
    }
}

pub proof fn lemma_fd_value_bound(s: Seq<char>)
    requires
        all_digits(s),
    ensures
        fd_value(s) < pow10(s.len()),
    decreases s.len(),
{
    if s.len() > 0 {
        assert(all_digits(s.drop_last())) by {
            assert(forall|i: int|
                0 <= i < s.len() - 1 ==> s.drop_last()[i] == #[trigger] s[i]);
        }
        lemma_fd_value_bound(s.drop_last());
    }
}

/// The accumulated word, if one is in progress, appended as a `Word`
/// token.
pub open spec fn flushed(acc: Seq<TokenS>, cur: Seq<char>, has_cur: bool) -> Seq<TokenS> {
    if has_cur {
        acc.push(TokenS::Word(cur))
    } else {
        acc
    }
}

/// The functional scanner. `i` is the position in `s`; `cur` and
/// `has_cur` hold the word being accumulated; `q` is the quoting state;
/// `acc` the tokens produced so far.
///
/// Outside quotes: blanks end the current word; `#` at a word boundary
/// starts a comment that runs to the end of the line; `;`, `|`, `||`,
/// `&`, `&&` become control operators; `<`, `>`, `>>`, `<&`, `>&` become
/// redirection operators, taking a directly preceding all-digit word as
/// their descriptor number; everything else extends the current word.
/// Inside quotes every character is literal until the matching quote.
pub open spec fn scan_from(
    s: Seq<char>,
    i: int,
    cur: Seq<char>,
    has_cur: bool,
    q: QuoteMode,
    acc: Seq<TokenS>,
) -> ScanS
    decreases s.len() - i,
{
    if i < 0 || i >= s.len() {
        match q {
            QuoteMode::Unquoted => ScanS::Toks(flushed(acc, cur, has_cur)),
            _ => ScanS::Pending,
        }
    } else {
        let c = s[i];
        match q {
            QuoteMode::InSingle => {
                if c == '\'' {
                    scan_from(s, i + 1, cur, has_cur, QuoteMode::Unquoted, acc)
                } else {
                    scan_from(s, i + 1, cur.push(c), has_cur, QuoteMode::InSingle, acc)
                }
            },
            QuoteMode::InDouble => {
                if c == '"' {
                    scan_from(s, i + 1, cur, has_cur, QuoteMode::Unquoted, acc)
                } else {
                    scan_from(s, i + 1, cur.push(c), has_cur, QuoteMode::InDouble, acc)
                }
            },
            QuoteMode::Unquoted => {
                if c == '\'' {
                    scan_from(s, i + 1, cur, true, QuoteMode::InSingle, acc)
                } else if c == '"' {
                    scan_from(s, i + 1, cur, true, QuoteMode::InDouble, acc)
                } else if is_blank(c) {
                    scan_from(
                        s,
                        i + 1,
                        Seq::empty(),
                        false,
                        QuoteMode::Unquoted,
                        flushed(acc, cur, has_cur),
                    )
                } else if c == '#' && !has_cur {
                    ScanS::Toks(acc)
                } else if c == ';' {
                    scan_from(
                        s,
                        i + 1,
                        Seq::empty(),
                        false,
                        QuoteMode::Unquoted,
                        flushed(acc, cur, has_cur).push(TokenS::Semi),
                    )
                } else if c == '|' {
                    if i + 1 < s.len() && s[i + 1] == '|' {
                        scan_from(
                            s,
                            i + 2,
                            Seq::empty(),
                            false,
                            QuoteMode::Unquoted,
                            flushed(acc, cur, has_cur).push(TokenS::OrIf),
                        )
                    } else {
                        scan_from(
                            s,
                            i + 1,
                            Seq::empty(),
                            false,
                            QuoteMode::Unquoted,
                            flushed(acc, cur, has_cur).push(TokenS::Pipe),
                        )
                    }
                } else if c == '&' {
                    if i + 1 < s.len() && s[i + 1] == '&' {
                        scan_from(
                            s,
                            i + 2,
                            Seq::empty(),
                            false,
                            QuoteMode::Unquoted,
                            flushed(acc, cur, has_cur).push(TokenS::AndIf),
                        )
                    } else {
                        scan_from(
                            s,
                            i + 1,
                            Seq::empty(),
                            false,
                            QuoteMode::Unquoted,
                            flushed(acc, cur, has_cur).push(TokenS::Amp),
                        )
                    }
                } else if c == '<' || c == '>' {
                    let take_fd = has_cur && is_fd_text(cur);
                    let fd = if take_fd {
                        fd_value(cur) as u32
                    } else if c == '<' {
                        0u32
                    } else {
                        1u32
                    };
                    let acc1 = if take_fd {
                        acc
                    } else {
                        flushed(acc, cur, has_cur)
                    };
                    if c == '>' && i + 1 < s.len() && s[i + 1] == '>' {
                        scan_from(
                            s,
                            i + 2,
                            Seq::empty(),
                            false,
                            QuoteMode::Unquoted,
                            acc1.push(TokenS::Redir { op: RedirOp::Append, fd }),
                        )
                    } else if i + 1 < s.len() && s[i + 1] == '&' {
                        scan_from(
                            s,
                            i + 2,
                            Seq::empty(),
                            false,
                            QuoteMode::Unquoted,
                            acc1.push(TokenS::Redir { op: RedirOp::Dup, fd }),
                        )
                    } else if c == '>' {
                        scan_from(
                            s,
                            i + 1,
                            Seq::empty(),
                            false,
                            QuoteMode::Unquoted,
                            acc1.push(TokenS::Redir { op: RedirOp::Output, fd }),
                        )
                    } else {
                        scan_from(
                            s,
                            i + 1,
                            Seq::empty(),
                            false,
                            QuoteMode::Unquoted,
                            acc1.push(TokenS::Redir { op: RedirOp::Input, fd }),
                        )
                    }
                } else {
                    scan_from(s, i + 1, cur.push(c), true, QuoteMode::Unquoted, acc)
                }
            },
        }
    }
}

/// The scanner applied to a whole line, from a fresh state.
pub open spec fn scan_text(s: Seq<char>) -> ScanS {
    scan_from(s, 0, Seq::empty(), false, QuoteMode::Unquoted, Seq::empty())
}

pub open spec fn view_tokens(toks: Seq<Token>) -> Seq<TokenS> {
    toks.map_values(|t: Token| t@)
}

/// Relies on `String: FromIterator<char>`: collecting a vector of
/// characters yields the string of exactly those characters, in order.
#[verifier::external_body]
fn chars_to_string(cs: &Vec<char>) -> (s: String)
    ensures
        s@ == cs@,
{
    cs.iter().collect()
}

/// The number written by an all-digit word, as a descriptor number.
fn fd_of_digits(cur: &Vec<char>) -> (fd: u32)
    requires
        is_fd_text(cur@),
    ensures
        fd == fd_value(cur@),
{
    let mut acc: u32 = 0;
    let mut j: usize = 0;
    proof {
        assert(cur@.subrange(0, 0) =~= Seq::<char>::empty());
    }
    while j < cur.len()
        invariant
            is_fd_text(cur@),
            0 <= j <= cur.len(),
            acc == fd_value(cur@.subrange(0, j as int)),
            acc < pow10(j as nat),
        decreases cur.len() - j,
    {
        proof {
            lemma_pow10_le(j as nat, 8);
            assert(pow10(8) == 100000000) by {
                reveal_with_fuel(pow10, 9);
            }
            assert(is_digit(cur@[j as int]));
            assert(cur@.subrange(0, j + 1).drop_last() =~= cur@.subrange(0, j as int));
            assert(cur@.subrange(0, j + 1).last() == cur@[j as int]);
        }
        let c = cur[j];
        let d: u32 = (c as u32) - ('0' as u32);
        acc = acc * 10 + d;
        j = j + 1;
    }
    proof {
        assert(cur@.subrange(0, cur.len() as int) =~= cur@);
    }
    acc
}

/// What scanning one line produced: complete tokens, or a pending
/// continuation.
pub enum Scanned {
    Pending,
    Toks(Vec<Token>),
}

impl View for Scanned {
    type V = ScanS;

    open spec fn view(&self) -> ScanS {
        match self {
            Scanned::Pending => ScanS::Pending,
            Scanned::Toks(toks) => ScanS::Toks(view_tokens(toks@)),
        }
    }
}

proof fn lemma_view_tokens_push(toks: Seq<Token>, t: Token)
    ensures
        view_tokens(toks.push(t)) =~= view_tokens(toks).push(t@),
{
}

/// Scan one line of text into tokens, or report that a quote is open and
/// the line continues.
pub fn scan_line(s: &str) -> (r: Scanned)
    ensures
        r@ == scan_text(s@),
{
    let n = s.unicode_len();
    let mut i: usize = 0;
    let mut cur: Vec<char> = Vec::new();
    let mut has_cur: bool = false;
    let mut q: QuoteMode = QuoteMode::Unquoted;
    let mut toks: Vec<Token> = Vec::new();

    proof {
        assert(view_tokens(toks@) =~= Seq::<TokenS>::empty());
        assert(cur@ =~= Seq::<char>::empty());
    }
    while i < n
        invariant
            n == s@.len(),
            0 <= i <= n,
            scan_text(s@) == scan_from(s@, i as int, cur@, has_cur, q, view_tokens(toks@)),
        decreases n - i,
    {
        let c = s.get_char(i);
        let peek: Option<char> = if i + 1 < n {
            Some(s.get_char(i + 1))
        } else {
            None
        };
        match q {
            QuoteMode::InSingle => {
                if c == '\'' {
                    q = QuoteMode::Unquoted;
                } else {
                    cur.push(c);
                }
                i = i + 1;
            },
            QuoteMode::InDouble => {
                if c == '"' {
                    q = QuoteMode::Unquoted;
                } else {
                    cur.push(c);
                }
                i = i + 1;
            },
            QuoteMode::Unquoted => {
                if c == '\'' {
                    q = QuoteMode::InSingle;
                    has_cur = true;
                    i = i + 1;
                } else if c == '"' {
                    q = QuoteMode::InDouble;
                    has_cur = true;
                    i = i + 1;
                } else if c == ' ' || c == '\t' || c == '\n' || c == '\r' {
                    if has_cur {
                        let w = chars_to_string(&cur);
                        proof {
                            lemma_view_tokens_push(toks@, Token::Word(w));
                        }
                        toks.push(Token::Word(w));
                    }
                    cur = Vec::new();
                    has_cur = false;
                    i = i + 1;
                } else if c == '#' && !has_cur {
                    return Scanned::Toks(toks);
                } else if c == ';' {
                    if has_cur {
                        let w = chars_to_string(&cur);
                        proof {
                            lemma_view_tokens_push(toks@, Token::Word(w));
                        }
                        toks.push(Token::Word(w));
                    }
                    proof {
                        lemma_view_tokens_push(toks@, Token::Semi);
                    }
                    toks.push(Token::Semi);
                    cur = Vec::new();
                    has_cur = false;
                    i = i + 1;
                } else if c == '|' {
                    if has_cur {
                        let w = chars_to_string(&cur);
                        proof {
                            lemma_view_tokens_push(toks@, Token::Word(w));
                        }
                        toks.push(Token::Word(w));
                    }
                    if peek == Some('|') {
                        proof {
                            lemma_view_tokens_push(toks@, Token::OrIf);
                        }
                        toks.push(Token::OrIf);
                        i = i + 2;
                    } else {
                        proof {
                            lemma_view_tokens_push(toks@, Token::Pipe);
                        }
                        toks.push(Token::Pipe);
                        i = i + 1;
                    }
                    cur = Vec::new();
                    has_cur = false;
                } else if c == '&' {
                    if has_cur {
                        let w = chars_to_string(&cur);
                        proof {
                            lemma_view_tokens_push(toks@, Token::Word(w));
                        }
                        toks.push(Token::Word(w));
                    }
                    if peek == Some('&') {
                        proof {
                            lemma_view_tokens_push(toks@, Token::AndIf);
                        }
                        toks.push(Token::AndIf);
                        i = i + 2;
                    } else {
                        proof {
                            lemma_view_tokens_push(toks@, Token::Amp);
                        }
                        toks.push(Token::Amp);
                        i = i + 1;
                    }
                    cur = Vec::new();
                    has_cur = false;
                } else if c == '<' || c == '>' {
                    let take_fd = has_cur && is_all_digit_word(&cur);
                    let fd: u32 = if take_fd {
                        fd_of_digits(&cur)
                    } else if c == '<' {
                        0
                    } else {
                        1
                    };
                    if !take_fd && has_cur {
                        let w = chars_to_string(&cur);
                        proof {
                            lemma_view_tokens_push(toks@, Token::Word(w));
                        }
                        toks.push(Token::Word(w));
                    }
                    let op: RedirOp;
                    if c == '>' && peek == Some('>') {
                        op = RedirOp::Append;
                        i = i + 2;
                    } else if peek == Some('&') {
                        op = RedirOp::Dup;
                        i = i + 2;
                    } else if c == '>' {
                        op = RedirOp::Output;
                        i = i + 1;
                    } else {
                        op = RedirOp::Input;
                        i = i + 1;
                    }
                    proof {
                        lemma_view_tokens_push(toks@, Token::Redir { op, fd });
                    }
                    toks.push(Token::Redir { op, fd });
                    cur = Vec::new();
                    has_cur = false;
                } else {
                    cur.push(c);
                    has_cur = true;
                    i = i + 1;
                }
            },
        }
    }
    if matches!(q, QuoteMode::Unquoted) {
        if has_cur {
            let w = chars_to_string(&cur);
            proof {
                lemma_view_tokens_push(toks@, Token::Word(w));
            }
            toks.push(Token::Word(w));
        }
        Scanned::Toks(toks)
    } else {
        Scanned::Pending
    }
}

/// The functional parser over tokens. `argv` and `redirects` belong to
/// the command being collected, `cmds` to the pipeline being collected,
/// `acc` to the finished pipelines. `need_cmd` records that the last
/// operator (`|`, `&&`, `||`) demands a further command, so that a line
/// may end after `;` but not after `&&`.
///
/// A redirection operator must be followed by a word (for `>&` and `<&`,
/// an all-digit word); every command must contain at least one word; `&`
/// closes the statement and marks its last pipeline as background, so no
/// token may follow it. Anything else is a dangling operator and rejects
/// the whole line.
pub open spec fn parse_from(
    toks: Seq<TokenS>,
    i: int,
    argv: Seq<Seq<char>>,
    redirects: Seq<RedirectSpecS>,
    cmds: Seq<CommandS>,
    acc: Seq<ListEntryS>,
    need_cmd: bool,
) -> Result<Seq<ListEntryS>, ParseError>
    decreases toks.len() - i,
{
    if i < 0 || i >= toks.len() {
        if argv.len() > 0 {
            let pipe = PipelineS {
                commands: cmds.push(CommandS { argv, redirects }),
                background: false,
            };
            Ok(acc.push(ListEntryS { pipeline: pipe, join: JoinOperator::End }))
        } else if redirects.len() > 0 || cmds.len() > 0 || need_cmd {
            Err(ParseError::DanglingOperator)
        } else {
            Ok(acc)
        }
    } else {
        match toks[i] {
            TokenS::Word(w) => parse_from(
                toks,
                i + 1,
                argv.push(w),
                redirects,
                cmds,
                acc,
                need_cmd,
            ),
            TokenS::Redir { op, fd } => {
                if i + 1 >= toks.len() {
                    Err(ParseError::DanglingOperator)
                } else {
                    match toks[i + 1] {
                        TokenS::Word(t) => {
                            match op {
                                RedirOp::Input => parse_from(
                                    toks,
                                    i + 2,
                                    argv,
                                    redirects.push(RedirectSpecS::Input { fd, path: t }),
                                    cmds,
                                    acc,
                                    need_cmd,
                                ),
                                RedirOp::Output => parse_from(
                                    toks,
                                    i + 2,
                                    argv,
                                    redirects.push(RedirectSpecS::Output { fd, path: t }),
                                    cmds,
                                    acc,
                                    need_cmd,
                                ),
                                RedirOp::Append => parse_from(
                                    toks,
                                    i + 2,
                                    argv,
                                    redirects.push(RedirectSpecS::Append { fd, path: t }),
                                    cmds,
                                    acc,
                                    need_cmd,
                                ),
                                RedirOp::Dup => {
                                    if is_fd_text(t) {
                                        parse_from(
                                            toks,
                                            i + 2,
                                            argv,
                                            redirects.push(
                                                RedirectSpecS::FdDup {
                                                    fd,
                                                    target: fd_value(t) as u32,
                                                },
                                            ),
                                            cmds,
                                            acc,
                                            need_cmd,
                                        )
                                    } else {
                                        Err(ParseError::DanglingOperator)
                                    }
                                },
                            }
                        },
                        _ => Err(ParseError::DanglingOperator),
                    }
                }
            },
            TokenS::Pipe => {
                if argv.len() == 0 {
                    Err(ParseError::DanglingOperator)
                } else {
                    parse_from(
                        toks,
                        i + 1,
                        Seq::empty(),
                        Seq::empty(),
                        cmds.push(CommandS { argv, redirects }),
                        acc,
                        true,
                    )
                }
            },
            TokenS::Semi => {
                if argv.len() == 0 {
                    Err(ParseError::DanglingOperator)
                } else {
                    let pipe = PipelineS {
                        commands: cmds.push(CommandS { argv, redirects }),
                        background: false,
                    };
                    parse_from(
                        toks,
                        i + 1,
                        Seq::empty(),
                        Seq::empty(),
                        Seq::empty(),
                        acc.push(ListEntryS { pipeline: pipe, join: JoinOperator::Sequential }),
                        false,
                    )
                }
            },
            TokenS::AndIf => {
                if argv.len() == 0 {
                    Err(ParseError::DanglingOperator)
                } else {
                    let pipe = PipelineS {
                        commands: cmds.push(CommandS { argv, redirects }),
                        background: false,
                    };
                    parse_from(
                        toks,
                        i + 1,
                        Seq::empty(),
                        Seq::empty(),
                        Seq::empty(),
                        acc.push(ListEntryS { pipeline: pipe, join: JoinOperator::AndThen }),
                        true,
                    )
                }
            },
            TokenS::OrIf => {
                if argv.len() == 0 {
                    Err(ParseError::DanglingOperator)
                } else {
                    let pipe = PipelineS {
                        commands: cmds.push(CommandS { argv, redirects }),
                        background: false,
                    };
                    parse_from(
                        toks,
                        i + 1,
                        Seq::empty(),
                        Seq::empty(),
                        Seq::empty(),
                        acc.push(ListEntryS { pipeline: pipe, join: JoinOperator::OrElse }),
                        true,
                    )
                }
            },
            TokenS::Amp => {
                if argv.len() == 0 || i + 1 < toks.len() {
                    Err(ParseError::DanglingOperator)
                } else {
                    let pipe = PipelineS {
                        commands: cmds.push(CommandS { argv, redirects }),
                        background: true,
                    };
                    Ok(acc.push(ListEntryS { pipeline: pipe, join: JoinOperator::End }))
                }
            },
        }
    }
}

/// The parser applied to a whole token sequence, from a fresh state.
pub open spec fn parse_tokens(toks: Seq<TokenS>) -> Result<Seq<ListEntryS>, ParseError> {
    parse_from(toks, 0, Seq::empty(), Seq::empty(), Seq::empty(), Seq::empty(), false)
}

/// Whether a word is one to nine decimal digits — the shape the scanner
/// accepts as an explicit descriptor number.
fn is_all_digit_word(cur: &Vec<char>) -> (r: bool)
    ensures
        r == is_fd_text(cur@),
{
    if cur.len() < 1 || cur.len() > 9 {
        return false;
    }
    let mut j: usize = 0;
    while j < cur.len()
        invariant
            0 <= j <= cur.len(),
            forall|k: int| 0 <= k < j ==> is_digit(#[trigger] cur@[k]),
        decreases cur.len() - j,
    {
        let c = cur[j];
        if c < '0' || c > '9' {
            return false;
        }
        j = j + 1;
    }
    true
}

proof fn lemma_parse_from_wf(
    toks: Seq<TokenS>,
    i: int,
    argv: Seq<Seq<char>>,
    redirects: Seq<RedirectSpecS>,
    cmds: Seq<CommandS>,
    acc: Seq<ListEntryS>,
    need_cmd: bool,
)
    requires
        forall|k: int| 0 <= k < cmds.len() ==> (#[trigger] cmds[k]).wf(),
        forall|k: int| 0 <= k < acc.len() ==> (#[trigger] acc[k]).pipeline.wf(),
    ensures
        parse_from(toks, i, argv, redirects, cmds, acc, need_cmd) matches Ok(es) ==> forall|k: int|
            0 <= k < es.len() ==> (#[trigger] es[k]).pipeline.wf(),
        parse_from(toks, i, argv, redirects, cmds, acc, need_cmd) matches Ok(es) ==> es.len()
            >= acc.len(),
        parse_from(toks, i, argv, redirects, cmds, acc, need_cmd) matches Ok(es) ==> ((argv.len()
            > 0 || cmds.len() > 0) ==> es.len() > acc.len()),
    decreases toks.len() - i,
{
    if i < 0 || i >= toks.len() {
    } else {
        match toks[i] {
            TokenS::Word(w) => {
                lemma_parse_from_wf(toks, i + 1, argv.push(w), redirects, cmds, acc, need_cmd);
            },
            TokenS::Redir { op, fd } => {
                if i + 1 < toks.len() {
                    match toks[i + 1] {
                        TokenS::Word(t) => {
                            match op {
                                RedirOp::Input => lemma_parse_from_wf(
                                    toks,
                                    i + 2,
                                    argv,
                                    redirects.push(RedirectSpecS::Input { fd, path: t }),
                                    cmds,
                                    acc,
                                    need_cmd,
                                ),
                                RedirOp::Output => lemma_parse_from_wf(
                                    toks,
                                    i + 2,
                                    argv,
                                    redirects.push(RedirectSpecS::Output { fd, path: t }),
                                    cmds,
                                    acc,
                                    need_cmd,
                                ),
                                RedirOp::Append => lemma_parse_from_wf(
                                    toks,
                                    i + 2,
                                    argv,
                                    redirects.push(RedirectSpecS::Append { fd, path: t }),
                                    cmds,
                                    acc,
                                    need_cmd,
                                ),
                                RedirOp::Dup => {
                                    if is_fd_text(t) {
                                        lemma_parse_from_wf(
                                            toks,
                                            i + 2,
                                            argv,
                                            redirects.push(
                                                RedirectSpecS::FdDup {
                                                    fd,
                                                    target: fd_value(t) as u32,
                                                },
                                            ),
                                            cmds,
                                            acc,
                                            need_cmd,
                                        );
                                    }
                                },
                            }
                        },
                        _ => {},
                    }
                }
            },
            TokenS::Pipe => {
                if argv.len() > 0 {
                    lemma_parse_from_wf(
                        toks,
                        i + 1,
                        Seq::empty(),
                        Seq::empty(),
                        cmds.push(CommandS { argv, redirects }),
                        acc,
                        true,
                    );
                }
            },
            TokenS::Semi => {
                if argv.len() > 0 {
                    let pipe = PipelineS {
                        commands: cmds.push(CommandS { argv, redirects }),
                        background: false,
                    };
                    lemma_parse_from_wf(
                        toks,
                        i + 1,
                        Seq::empty(),
                        Seq::empty(),
                        Seq::empty(),
                        acc.push(ListEntryS { pipeline: pipe, join: JoinOperator::Sequential }),
                        false,
                    );
                }
            },
            TokenS::AndIf => {
                if argv.len() > 0 {
                    let pipe = PipelineS {
                        commands: cmds.push(CommandS { argv, redirects }),
                        background: false,
                    };
                    lemma_parse_from_wf(
                        toks,
                        i + 1,
                        Seq::empty(),
                        Seq::empty(),
                        Seq::empty(),
                        acc.push(ListEntryS { pipeline: pipe, join: JoinOperator::AndThen }),
                        true,
                    );
                }
            },
            TokenS::OrIf => {
                if argv.len() > 0 {
                    let pipe = PipelineS {
                        commands: cmds.push(CommandS { argv, redirects }),
                        background: false,
                    };
                    lemma_parse_from_wf(
                        toks,
                        i + 1,
                        Seq::empty(),
                        Seq::empty(),
                        Seq::empty(),
                        acc.push(ListEntryS { pipeline: pipe, join: JoinOperator::OrElse }),
                        true,
                    );
                }
            },
            TokenS::Amp => {},
        }
    }
}

/// A successfully parsed non-empty token sequence yields a well-formed
/// command list: at least one pipeline, every pipeline non-empty, every
/// command with at least one word.
pub proof fn lemma_parse_tokens_wf(toks: Seq<TokenS>)
    ensures
        toks.len() > 0 ==> (parse_tokens(toks) matches Ok(es) ==> list_wf(es)),
{
    if toks.len() > 0 {
        let e0: Seq<Seq<char>> = Seq::empty();
        let er: Seq<RedirectSpecS> = Seq::empty();
        let ec: Seq<CommandS> = Seq::empty();
        let ea: Seq<ListEntryS> = Seq::empty();
        match toks[0] {
            TokenS::Word(w) => {
                lemma_parse_from_wf(toks, 1, e0.push(w), er, ec, ea, false);
            },
            TokenS::Redir { op, fd } => {
                if 1 < toks.len() {
                    match toks[1] {
                        TokenS::Word(t) => {
                            match op {
                                RedirOp::Input => {
                                    lemma_parse_from_wf(
                                        toks,
                                        2,
                                        e0,
                                        er.push(RedirectSpecS::Input { fd, path: t }),
                                        ec,
                                        ea,
                                        false,
                                    );
                                    lemma_parse_redirect_only_rejected(
                                        toks,
                                        2,
                                        er.push(RedirectSpecS::Input { fd, path: t }),
                                        ea,
                                        false,
                                    );
                                },
                                RedirOp::Output => {
                                    lemma_parse_from_wf(
                                        toks,
                                        2,
                                        e0,
                                        er.push(RedirectSpecS::Output { fd, path: t }),
                                        ec,
                                        ea,
                                        false,
                                    );
                                    lemma_parse_redirect_only_rejected(
                                        toks,
                                        2,
                                        er.push(RedirectSpecS::Output { fd, path: t }),
                                        ea,
                                        false,
                                    );
                                },
                                RedirOp::Append => {
                                    lemma_parse_from_wf(
                                        toks,
                                        2,
                                        e0,
                                        er.push(RedirectSpecS::Append { fd, path: t }),
                                        ec,
                                        ea,
                                        false,
                                    );
                                    lemma_parse_redirect_only_rejected(
                                        toks,
                                        2,
                                        er.push(RedirectSpecS::Append { fd, path: t }),
                                        ea,
                                        false,
                                    );
                                },
                                RedirOp::Dup => {
                                    if is_fd_text(t) {
                                        let rs = er.push(
                                            RedirectSpecS::FdDup { fd, target: fd_value(t) as u32 },
                                        );
                                        lemma_parse_from_wf(toks, 2, e0, rs, ec, ea, false);
                                        lemma_parse_redirect_only_rejected(toks, 2, rs, ea, false);
                                    }
                                },
                            }
                        },
                        _ => {},
                    }
                }
            },
            _ => {},
        }
    }
}

/// A command that holds only redirections and no word is rejected, so a
/// parse that has collected redirections but no word never returns an
/// empty list.
proof fn lemma_parse_redirect_only_rejected(
    toks: Seq<TokenS>,
    i: int,
    redirects: Seq<RedirectSpecS>,
    acc: Seq<ListEntryS>,
    need_cmd: bool,
)
    requires
        redirects.len() > 0,
    ensures
        parse_from(toks, i, Seq::empty(), redirects, Seq::empty(), acc, need_cmd) matches Ok(es)
            ==> es.len() > acc.len(),
    decreases toks.len() - i,
{
    let e0: Seq<Seq<char>> = Seq::empty();
    let ec: Seq<CommandS> = Seq::empty();
    if i < 0 || i >= toks.len() {
    } else {
        match toks[i] {
            TokenS::Word(w) => {
                lemma_parse_from_started(toks, i + 1, e0.push(w), redirects, ec, acc, need_cmd);
            },
            TokenS::Redir { op, fd } => {
                if i + 1 < toks.len() {
                    match toks[i + 1] {
                        TokenS::Word(t) => {
                            match op {
                                RedirOp::Input => lemma_parse_redirect_only_rejected(
                                    toks,
                                    i + 2,
                                    redirects.push(RedirectSpecS::Input { fd, path: t }),
                                    acc,
                                    need_cmd,
                                ),
                                RedirOp::Output => lemma_parse_redirect_only_rejected(
                                    toks,
                                    i + 2,
                                    redirects.push(RedirectSpecS::Output { fd, path: t }),
                                    acc,
                                    need_cmd,
                                ),
                                RedirOp::Append => lemma_parse_redirect_only_rejected(
                                    toks,
                                    i + 2,
                                    redirects.push(RedirectSpecS::Append { fd, path: t }),
                                    acc,
                                    need_cmd,
                                ),
                                RedirOp::Dup => {
                                    if is_fd_text(t) {
                                        lemma_parse_redirect_only_rejected(
                                            toks,
                                            i + 2,
                                            redirects.push(
                                                RedirectSpecS::FdDup {
                                                    fd,
                                                    target: fd_value(t) as u32,
                                                },
                                            ),
                                            acc,
                                            need_cmd,
                                        );
                                    }
                                },
                            }
                        },
                        _ => {},
                    }
                }
            },
            _ => {},
        }
    }
}

/// Once a command has at least one word, the parse (if it succeeds)
/// always adds at least one further pipeline to the accumulator.
proof fn lemma_parse_from_started(
    toks: Seq<TokenS>,
    i: int,
    argv: Seq<Seq<char>>,
    redirects: Seq<RedirectSpecS>,
    cmds: Seq<CommandS>,
    acc: Seq<ListEntryS>,
    need_cmd: bool,
)
    requires
        argv.len() > 0 || cmds.len() > 0,
    ensures
        parse_from(toks, i, argv, redirects, cmds, acc, need_cmd) matches Ok(es) ==> es.len()
            > acc.len(),
    decreases toks.len() - i,
{
    if i < 0 || i >= toks.len() {
    } else {
        match toks[i] {
            TokenS::Word(w) => {
                lemma_parse_from_started(toks, i + 1, argv.push(w), redirects, cmds, acc, need_cmd);
            },
            TokenS::Redir { op, fd } => {
                if i + 1 < toks.len() {
                    match toks[i + 1] {
                        TokenS::Word(t) => {
                            match op {
                                RedirOp::Input => lemma_parse_from_started(
                                    toks,
                                    i + 2,
                                    argv,
                                    redirects.push(RedirectSpecS::Input { fd, path: t }),
                                    cmds,
                                    acc,
                                    need_cmd,
                                ),
                                RedirOp::Output => lemma_parse_from_started(
                                    toks,
                                    i + 2,
                                    argv,
                                    redirects.push(RedirectSpecS::Output { fd, path: t }),
                                    cmds,
                                    acc,
                                    need_cmd,
                                ),
                                RedirOp::Append => lemma_parse_from_started(
                                    toks,
                                    i + 2,
                                    argv,
                                    redirects.push(RedirectSpecS::Append { fd, path: t }),
                                    cmds,
                                    acc,
                                    need_cmd,
                                ),
                                RedirOp::Dup => {
                                    if is_fd_text(t) {
                                        lemma_parse_from_started(
                                            toks,
                                            i + 2,
                                            argv,
                                            redirects.push(
                                                RedirectSpecS::FdDup {
                                                    fd,
                                                    target: fd_value(t) as u32,
                                                },
                                            ),
                                            cmds,
                                            acc,
                                            need_cmd,
                                        );
                                    }
                                },
                            }
                        },
                        _ => {},
                    }
                }
            },
            TokenS::Pipe => {
                if argv.len() > 0 {
                    lemma_parse_from_started(
                        toks,
                        i + 1,
                        Seq::empty(),
                        Seq::empty(),
                        cmds.push(CommandS { argv, redirects }),
                        acc,
                        true,
                    );
                }
            },
            TokenS::Semi => {
                if argv.len() > 0 {
                    let pipe = PipelineS {
                        commands: cmds.push(CommandS { argv, redirects }),
                        background: false,
                    };
                    lemma_parse_from_grows(
                        toks,
                        i + 1,
                        acc.push(ListEntryS { pipeline: pipe, join: JoinOperator::Sequential }),
                        false,
                    );
                }
            },
            TokenS::AndIf => {
                if argv.len() > 0 {
                    let pipe = PipelineS {
                        commands: cmds.push(CommandS { argv, redirects }),
                        background: false,
                    };
                    lemma_parse_from_grows(
                        toks,
                        i + 1,
                        acc.push(ListEntryS { pipeline: pipe, join: JoinOperator::AndThen }),
                        true,
                    );
                }
            },
            TokenS::OrIf => {
                if argv.len() > 0 {
                    let pipe = PipelineS {
                        commands: cmds.push(CommandS { argv, redirects }),
                        background: false,
                    };
                    lemma_parse_from_grows(
                        toks,
                        i + 1,
                        acc.push(ListEntryS { pipeline: pipe, join: JoinOperator::OrElse }),
                        true,
                    );
                }
            },
            TokenS::Amp => {},
        }
    }
}

/// Parse an all-digit descriptor word such as the `1` of `2>&1`.
pub fn parse_fd_word(w: &String) -> (r: Option<u32>)
    ensures
        r matches Some(v) ==> is_fd_text(w@) && v == fd_value(w@),
        r is None ==> !is_fd_text(w@),
{
    let s = w.as_str();
    let n = s.unicode_len();
    if n < 1 || n > 9 {
        return None;
    }
    let mut acc: u32 = 0;
    let mut j: usize = 0;
    proof {
        assert(s@.subrange(0, 0) =~= Seq::<char>::empty());
    }
    while j < n
        invariant
            w@ == s@,
            n == s@.len(),
            1 <= n <= 9,
            0 <= j <= n,
            all_digits(s@.subrange(0, j as int)),
            acc == fd_value(s@.subrange(0, j as int)),
            acc < pow10(j as nat),
        decreases n - j,
    {
        let c = s.get_char(j);
        if c < '0' || c > '9' {
            proof {
                assert(!is_digit(w@[j as int]));
            }
            return None;
        }
        proof {
            lemma_pow10_le(j as nat, 8);
            assert(pow10(8) == 100000000) by {
                reveal_with_fuel(pow10, 9);
            }
            assert(s@.subrange(0, j + 1).drop_last() =~= s@.subrange(0, j as int));
            assert(s@.subrange(0, j + 1).last() == s@[j as int]);
        }
        let d: u32 = (c as u32) - ('0' as u32);
        acc = acc * 10 + d;
        j = j + 1;
    }
    proof {
        assert(s@.subrange(0, n as int) =~= s@);
    }
    Some(acc)
}

/// Group a non-empty token sequence into a command list, or reject the
/// line with the dangling operator it contains.
pub fn parse_token_list(toks: &Vec<Token>) -> (r: Result<CommandList, ParseError>)
    ensures
        r matches Ok(l) ==> (parse_tokens(view_tokens(toks@)) matches Ok(es) && l@ == es),
        r matches Err(e) ==> parse_tokens(view_tokens(toks@)) == Result::<
            Seq<ListEntryS>,
            ParseError,
        >::Err(e),
{
    let ghost tv = view_tokens(toks@);
    let n = toks.len();
    let mut i: usize = 0;
    let mut argv: Vec<String> = Vec::new();
    let mut redirects: Vec<RedirectSpec> = Vec::new();
    let mut cmds: Vec<Command> = Vec::new();
    let mut acc: Vec<ListEntry> = Vec::new();
    let mut need_cmd: bool = false;

    proof {
        assert(argv@.map_values(|a: String| a@) =~= Seq::<Seq<char>>::empty());
        assert(redirects@.map_values(|r: RedirectSpec| r@) =~= Seq::<RedirectSpecS>::empty());
        assert(cmds@.map_values(|c: Command| c@) =~= Seq::<CommandS>::empty());
        assert(acc@.map_values(|e: ListEntry| e@) =~= Seq::<ListEntryS>::empty());
    }
    while i < n
        invariant
            n == toks.len(),
            tv == view_tokens(toks@),
            tv.len() == n,
            0 <= i <= n,
            parse_tokens(tv) == parse_from(
                tv,
                i as int,
                argv@.map_values(|a: String| a@),
                redirects@.map_values(|r: RedirectSpec| r@),
                cmds@.map_values(|c: Command| c@),
                acc@.map_values(|e: ListEntry| e@),
                need_cmd,
            ),
        decreases n - i,
    {
        proof {
            assert(tv[i as int] == toks@[i as int]@);
        }
        match &toks[i] {
            Token::Word(w) => {
                let w1 = w.clone();
                proof {
                    assert(argv@.push(w1).map_values(|a: String| a@) =~= argv@.map_values(
                        |a: String| a@,
                    ).push(w@));
                }
                argv.push(w1);
                i = i + 1;
            },
            Token::Redir { op, fd } => {
                if i + 1 >= n {
                    return Err(ParseError::DanglingOperator);
                }
                proof {
                    assert(tv[i + 1] == toks@[i + 1]@);
                }
                let target: String = match &toks[i + 1] {
                    Token::Word(t) => t.clone(),
                    _ => {
                        return Err(ParseError::DanglingOperator);
                    },
                };
                let spec_item: RedirectSpec = match op {
                    RedirOp::Input => RedirectSpec::Input { fd: *fd, path: target },
                    RedirOp::Output => RedirectSpec::Output { fd: *fd, path: target },
                    RedirOp::Append => RedirectSpec::Append { fd: *fd, path: target },
                    RedirOp::Dup => {
                        match parse_fd_word(&target) {
                            Some(v) => RedirectSpec::FdDup { fd: *fd, target: v },
                            None => {
                                return Err(ParseError::DanglingOperator);
                            },
                        }
                    },
                };
                proof {
                    assert(redirects@.push(spec_item).map_values(|r: RedirectSpec| r@)
                        =~= redirects@.map_values(|r: RedirectSpec| r@).push(spec_item@));
                }
                redirects.push(spec_item);
                i = i + 2;
            },
            Token::Pipe => {
                if argv.len() == 0 {
                    return Err(ParseError::DanglingOperator);
                }
                let cmd = Command { argv, redirects };
                proof {
                    assert(cmds@.push(cmd).map_values(|c: Command| c@) =~= cmds@.map_values(
                        |c: Command| c@,
                    ).push(cmd@));
                }
                cmds.push(cmd);
                argv = Vec::new();
                redirects = Vec::new();
                need_cmd = true;
                proof {
                    assert(argv@.map_values(|a: String| a@) =~= Seq::<Seq<char>>::empty());
                    assert(redirects@.map_values(|r: RedirectSpec| r@) =~= Seq::<
                        RedirectSpecS,
                    >::empty());
                }
                i = i + 1;
            },
            Token::Semi => {
                if argv.len() == 0 {
                    return Err(ParseError::DanglingOperator);
                }
                let cmd = Command { argv, redirects };
                proof {
                    assert(cmds@.push(cmd).map_values(|c: Command| c@) =~= cmds@.map_values(
                        |c: Command| c@,
                    ).push(cmd@));
                }
                cmds.push(cmd);
                let pipe = Pipeline { commands: cmds, background: false };
                let entry = ListEntry { pipeline: pipe, join: JoinOperator::Sequential };
                proof {
                    assert(acc@.push(entry).map_values(|e: ListEntry| e@) =~= acc@.map_values(
                        |e: ListEntry| e@,
                    ).push(entry@));
                }
                acc.push(entry);
                argv = Vec::new();
                redirects = Vec::new();
                cmds = Vec::new();
                need_cmd = false;
                proof {
                    assert(argv@.map_values(|a: String| a@) =~= Seq::<Seq<char>>::empty());
                    assert(redirects@.map_values(|r: RedirectSpec| r@) =~= Seq::<
                        RedirectSpecS,
                    >::empty());
                    assert(cmds@.map_values(|c: Command| c@) =~= Seq::<CommandS>::empty());
                }
                i = i + 1;
            },
            Token::AndIf => {
                if argv.len() == 0 {
                    return Err(ParseError::DanglingOperator);
                }
                let cmd = Command { argv, redirects };
                proof {
                    assert(cmds@.push(cmd).map_values(|c: Command| c@) =~= cmds@.map_values(
                        |c: Command| c@,
                    ).push(cmd@));
                }
                cmds.push(cmd);
                let pipe = Pipeline { commands: cmds, background: false };
                let entry = ListEntry { pipeline: pipe, join: JoinOperator::AndThen };
                proof {
                    assert(acc@.push(entry).map_values(|e: ListEntry| e@) =~= acc@.map_values(
                        |e: ListEntry| e@,
                    ).push(entry@));
                }
                acc.push(entry);
                argv = Vec::new();
                redirects = Vec::new();
                cmds = Vec::new();
                need_cmd = true;
                proof {
                    assert(argv@.map_values(|a: String| a@) =~= Seq::<Seq<char>>::empty());
                    assert(redirects@.map_values(|r: RedirectSpec| r@) =~= Seq::<
                        RedirectSpecS,
                    >::empty());
                    assert(cmds@.map_values(|c: Command| c@) =~= Seq::<CommandS>::empty());
                }
                i = i + 1;
            },
            Token::OrIf => {
                if argv.len() == 0 {
                    return Err(ParseError::DanglingOperator);
                }
                let cmd = Command { argv, redirects };
                proof {
                    assert(cmds@.push(cmd).map_values(|c: Command| c@) =~= cmds@.map_values(
                        |c: Command| c@,
                    ).push(cmd@));
                }
                cmds.push(cmd);
                let pipe = Pipeline { commands: cmds, background: false };
                let entry = ListEntry { pipeline: pipe, join: JoinOperator::OrElse };
                proof {
                    assert(acc@.push(entry).map_values(|e: ListEntry| e@) =~= acc@.map_values(
                        |e: ListEntry| e@,
                    ).push(entry@));
                }
                acc.push(entry);
                argv = Vec::new();
                redirects = Vec::new();
                cmds = Vec::new();
                need_cmd = true;
                proof {
                    assert(argv@.map_values(|a: String| a@) =~= Seq::<Seq<char>>::empty());
                    assert(redirects@.map_values(|r: RedirectSpec| r@) =~= Seq::<
                        RedirectSpecS,
                    >::empty());
                    assert(cmds@.map_values(|c: Command| c@) =~= Seq::<CommandS>::empty());
                }
                i = i + 1;
            },
            Token::Amp => {
                if argv.len() == 0 || i + 1 < n {
                    return Err(ParseError::DanglingOperator);
                }
                let cmd = Command { argv, redirects };
                proof {
                    assert(cmds@.push(cmd).map_values(|c: Command| c@) =~= cmds@.map_values(
                        |c: Command| c@,
                    ).push(cmd@));
                }
                cmds.push(cmd);
                let pipe = Pipeline { commands: cmds, background: true };
                let entry = ListEntry { pipeline: pipe, join: JoinOperator::End };
                proof {
                    assert(acc@.push(entry).map_values(|e: ListEntry| e@) =~= acc@.map_values(
                        |e: ListEntry| e@,
                    ).push(entry@));
                }
                acc.push(entry);
                return Ok(CommandList { entries: acc });
            },
        }
    }
    if argv.len() > 0 {
        let cmd = Command { argv, redirects };
        proof {
            assert(cmds@.push(cmd).map_values(|c: Command| c@) =~= cmds@.map_values(
                |c: Command| c@,
            ).push(cmd@));
        }
        cmds.push(cmd);
        let pipe = Pipeline { commands: cmds, background: false };
        let entry = ListEntry { pipeline: pipe, join: JoinOperator::End };
        proof {
            assert(acc@.push(entry).map_values(|e: ListEntry| e@) =~= acc@.map_values(
                |e: ListEntry| e@,
            ).push(entry@));
        }
        acc.push(entry);
        Ok(CommandList { entries: acc })
    } else if redirects.len() > 0 || cmds.len() > 0 || need_cmd {
        Err(ParseError::DanglingOperator)
    } else {
        Ok(CommandList { entries: acc })
    }
}

/// A parse never shrinks its accumulator of finished pipelines.
proof fn lemma_parse_from_grows(toks: Seq<TokenS>, i: int, acc: Seq<ListEntryS>, need_cmd: bool)
    ensures
        parse_from(toks, i, Seq::empty(), Seq::empty(), Seq::empty(), acc, need_cmd) matches Ok(es)
            ==> es.len() >= acc.len(),
    decreases toks.len() - i,
{
    let e0: Seq<Seq<char>> = Seq::empty();
    let er: Seq<RedirectSpecS> = Seq::empty();
    if i < 0 || i >= toks.len() {
    } else {
        match toks[i] {
            TokenS::Word(w) => {
                lemma_parse_from_started(toks, i + 1, e0.push(w), er, Seq::empty(), acc, need_cmd);
            },
            TokenS::Redir { op, fd } => {
                if i + 1 < toks.len() {
                    match toks[i + 1] {
                        TokenS::Word(t) => {
                            match op {
                                RedirOp::Input => lemma_parse_redirect_only_rejected(
                                    toks,
                                    i + 2,
                                    er.push(RedirectSpecS::Input { fd, path: t }),
                                    acc,
                                    need_cmd,
                                ),
                                RedirOp::Output => lemma_parse_redirect_only_rejected(
                                    toks,
                                    i + 2,
                                    er.push(RedirectSpecS::Output { fd, path: t }),
                                    acc,
                                    need_cmd,
                                ),
                                RedirOp::Append => lemma_parse_redirect_only_rejected(
                                    toks,
                                    i + 2,
                                    er.push(RedirectSpecS::Append { fd, path: t }),
                                    acc,
                                    need_cmd,
                                ),
                                RedirOp::Dup => {
                                    if is_fd_text(t) {
                                        lemma_parse_redirect_only_rejected(
                                            toks,
                                            i + 2,
                                            er.push(
                                                RedirectSpecS::FdDup {
                                                    fd,
                                                    target: fd_value(t) as u32,
                                                },
                                            ),
                                            acc,
                                            need_cmd,
                                        );
                                    }
                                },
                            }
                        },
                        _ => {},
                    }
                }
            },
            _ => {},
        }
    }
}

/// What one logical line of text parses to.
pub enum LineOutcomeS {
    /// A quote is open: the line continues and no command exists yet.
    Pending,
    /// Nothing but blanks or a comment: no command.
    Empty,
    /// A syntax error: the whole line is rejected and nothing runs.
    Failed(ParseError),
    /// A complete, well-formed statement.
    Parsed(Seq<ListEntryS>),
}

/// The whole grammar, as one function of the accumulated text.
pub open spec fn parse_text(s: Seq<char>) -> LineOutcomeS {
    match scan_text(s) {
        ScanS::Pending => LineOutcomeS::Pending,
        ScanS::Toks(toks) => {
            if toks.len() == 0 {
                LineOutcomeS::Empty
            } else {
                match parse_tokens(toks) {
                    Ok(es) => LineOutcomeS::Parsed(es),
                    Err(e) => LineOutcomeS::Failed(e),
                }
            }
        },
    }
}

/// Occurrences of `c` in `s` from position `i` on.
pub open spec fn count_char(s: Seq<char>, i: int, c: char) -> nat
    decreases s.len() - i,
{
    if i < 0 || i >= s.len() {
        0
    } else {
        (if s[i] == c {
            1nat
        } else {
            0nat
        }) + count_char(s, i + 1, c)
    }
}

/// The scanner ends pending exactly when the quote parity says a quote
/// is open: over text free of double quotes and comment marks, each
/// single quote toggles the quoting state and nothing else does.
proof fn lemma_scan_parity(
    s: Seq<char>,
    i: int,
    cur: Seq<char>,
    has_cur: bool,
    q: QuoteMode,
    acc: Seq<TokenS>,
)
    requires
        0 <= i <= s.len(),
        count_char(s, i, '"') == 0,
        count_char(s, i, '#') == 0,
        !(q is InDouble),
    ensures
        scan_from(s, i, cur, has_cur, q, acc) is Pending <==> ((count_char(s, i, '\'') % 2 == 1)
            <==> q is Unquoted),
    decreases s.len() - i,
{
    if i < s.len() {
        let c = s[i];
        if i + 1 < s.len() {
            assert(count_char(s, i + 1, '"') == 0);
            assert(count_char(s, i + 1, '#') == 0);
            assert(count_char(s, i + 2, '"') == 0);
            assert(count_char(s, i + 2, '#') == 0);
        }
        match q {
            QuoteMode::InSingle => {
                if c == '\'' {
                    lemma_scan_parity(s, i + 1, cur, has_cur, QuoteMode::Unquoted, acc);
                } else {
                    lemma_scan_parity(s, i + 1, cur.push(c), has_cur, QuoteMode::InSingle, acc);
                }
            },
            QuoteMode::InDouble => {},
            QuoteMode::Unquoted => {
                if c == '\'' {
                    lemma_scan_parity(s, i + 1, cur, true, QuoteMode::InSingle, acc);
                } else if c == '"' {
                    assert(count_char(s, i, '"') > 0);
                } else if is_blank(c) {
                    lemma_scan_parity(
                        s,
                        i + 1,
                        Seq::empty(),
                        false,
                        QuoteMode::Unquoted,
                        flushed(acc, cur, has_cur),
                    );
                } else if c == '#' && !has_cur {
                    assert(count_char(s, i, '#') > 0);
                } else if c == ';' {
                    lemma_scan_parity(
                        s,
                        i + 1,
                        Seq::empty(),
                        false,
                        QuoteMode::Unquoted,
                        flushed(acc, cur, has_cur).push(TokenS::Semi),
                    );
                } else if c == '|' || c == '&' || c == '<' || c == '>' {
                    if scan_consumes_two(s, i) {
                        lemma_scan_parity(
                            s,
                            i + 2,
                            Seq::empty(),
                            false,
                            QuoteMode::Unquoted,
                            step_acc(s, i, cur, has_cur, acc),
                        );
                    } else {
                        lemma_scan_parity(
                            s,
                            i + 1,
                            Seq::empty(),
                            false,
                            QuoteMode::Unquoted,
                            step_acc(s, i, cur, has_cur, acc),
                        );
                    }
                } else {
                    lemma_scan_parity(s, i + 1, cur.push(c), true, QuoteMode::Unquoted, acc);
                }
            },
        }
    }
}

/// Whether the operator starting at `i` spans two characters.
spec fn scan_consumes_two(s: Seq<char>, i: int) -> bool {
    let c = s[i];
    if c == '|' {
        i + 1 < s.len() && s[i + 1] == '|'
    } else if c == '&' {
        i + 1 < s.len() && s[i + 1] == '&'
    } else if c == '>' {
        i + 1 < s.len() && (s[i + 1] == '>' || s[i + 1] == '&')
    } else {
        i + 1 < s.len() && s[i + 1] == '&'
    }
}

/// The token accumulator after the operator starting at `i` is read.
spec fn step_acc(s: Seq<char>, i: int, cur: Seq<char>, has_cur: bool, acc: Seq<TokenS>) -> Seq<
    TokenS,
> {
    let c = s[i];
    if c == '|' {
        if scan_consumes_two(s, i) {
            flushed(acc, cur, has_cur).push(TokenS::OrIf)
        } else {
            flushed(acc, cur, has_cur).push(TokenS::Pipe)
        }
    } else if c == '&' {
        if scan_consumes_two(s, i) {
            flushed(acc, cur, has_cur).push(TokenS::AndIf)
        } else {
            flushed(acc, cur, has_cur).push(TokenS::Amp)
        }
    } else {
        let take_fd = has_cur && is_fd_text(cur);
        let fd = if take_fd {
            fd_value(cur) as u32
        } else if c == '<' {
            0u32
        } else {
            1u32
        };
        let acc1 = if take_fd {
            acc
        } else {
            flushed(acc, cur, has_cur)
        };
        if c == '>' && i + 1 < s.len() && s[i + 1] == '>' {
            acc1.push(TokenS::Redir { op: RedirOp::Append, fd })
        } else if i + 1 < s.len() && s[i + 1] == '&' {
            acc1.push(TokenS::Redir { op: RedirOp::Dup, fd })
        } else if c == '>' {
            acc1.push(TokenS::Redir { op: RedirOp::Output, fd })
        } else {
            acc1.push(TokenS::Redir { op: RedirOp::Input, fd })
        }
    }
}

/// Law: a line holding an odd number of single quotes (and no double
/// quote or comment mark) always parses to "pending" — the quote is
/// still open, the statement continues on the next line, and nothing is
/// rejected or run.
pub proof fn lemma_odd_single_quotes_pending(s: Seq<char>)
    requires
        count_char(s, 0, '\'') % 2 == 1,
        count_char(s, 0, '"') == 0,
        count_char(s, 0, '#') == 0,
    ensures
        parse_text(s) is Pending,
{
    lemma_scan_parity(s, 0, Seq::empty(), false, QuoteMode::Unquoted, Seq::empty());
}

/// The statement a single quoted word parses to: one pipeline of one
/// command whose only argument is that word, joined by nothing.
pub open spec fn single_word_statement(w: Seq<char>) -> Seq<ListEntryS> {
    seq![
        ListEntryS {
            pipeline: PipelineS {
                commands: seq![CommandS { argv: seq![w], redirects: Seq::empty() }],
                background: false,
            },
            join: JoinOperator::End,
        },
    ]
}

/// Inside single quotes the scanner copies characters verbatim until
/// the closing quote.
proof fn lemma_scan_single_quoted(
    s: Seq<char>,
    i: int,
    j: int,
    cur: Seq<char>,
    has_cur: bool,
    acc: Seq<TokenS>,
)
    requires
        0 <= i <= j <= s.len(),
        forall|k: int| i <= k < j ==> s[k] != '\'',
    ensures
        scan_from(s, i, cur, has_cur, QuoteMode::InSingle, acc) == scan_from(
            s,
            j,
            cur + s.subrange(i, j),
            has_cur,
            QuoteMode::InSingle,
            acc,
        ),
    decreases j - i,
{
    if i < j {
        lemma_scan_single_quoted(s, i + 1, j, cur.push(s[i]), has_cur, acc);
        assert(cur.push(s[i]) + s.subrange(i + 1, j) =~= cur + s.subrange(i, j));
    } else {
        assert(cur + s.subrange(i, i) =~= cur);
    }
}

/// Law: between single quotes every character is literal. Whatever a
/// word holds — operator characters, blanks, comment marks — quoting it
/// in single quotes parses to exactly one command with that word as its
/// only argument: `'a|b'` is one argument, not a pipeline.
pub proof fn lemma_single_quotes_literal(w: Seq<char>)
    requires
        forall|k: int| 0 <= k < w.len() ==> w[k] != '\'',
    ensures
        parse_text(seq!['\''] + w + seq!['\'']) == LineOutcomeS::Parsed(single_word_statement(w)),
{
    let s = seq!['\''] + w + seq!['\''];
    let e: Seq<TokenS> = Seq::empty();
    assert(s.len() == w.len() + 2);
    assert(s[0] == '\'');
    assert(forall|k: int| 1 <= k < 1 + w.len() ==> s[k] == w[k - 1] && s[k] != '\'');
    assert(scan_text(s) == scan_from(s, 1, Seq::empty(), true, QuoteMode::InSingle, e));
    let m = 1 + w.len() as int;
    lemma_scan_single_quoted(s, 1, m, Seq::empty(), true, e);
    assert(Seq::<char>::empty() + s.subrange(1, m) =~= w);
    assert(s[m] == '\'');
    assert(scan_from(s, m, w, true, QuoteMode::InSingle, e) == scan_from(
        s,
        s.len() as int,
        w,
        true,
        QuoteMode::Unquoted,
        e,
    ));
    assert(scan_text(s) == ScanS::Toks(e.push(TokenS::Word(w))));
    let toks = e.push(TokenS::Word(w));
    let e0: Seq<Seq<char>> = Seq::empty();
    assert(parse_tokens(toks) == parse_from(
        toks,
        1,
        e0.push(w),
        Seq::empty(),
        Seq::empty(),
        Seq::empty(),
        false,
    ));
    let cmd = CommandS { argv: e0.push(w), redirects: Seq::empty() };
    let pipe = PipelineS { commands: Seq::<CommandS>::empty().push(cmd), background: false };
    let entry = ListEntryS { pipeline: pipe, join: JoinOperator::End };
    assert(parse_tokens(toks) == Ok::<Seq<ListEntryS>, ParseError>(
        Seq::<ListEntryS>::empty().push(entry),
    ));
    assert(e0.push(w) =~= seq![w]);
    assert(Seq::<CommandS>::empty().push(cmd) =~= seq![cmd]);
    assert(Seq::<ListEntryS>::empty().push(entry) =~= single_word_statement(w));
    assert(parse_text(s) == LineOutcomeS::Parsed(single_word_statement(w)));
}

/// Two lines as one logical text, the newline between them restored.
pub open spec fn whole_text(l1: Seq<char>, l2: Seq<char>) -> Seq<char> {
    l1 + seq!['\n'] + l2
}

/// Law: a pending line continues seamlessly. When parsing `l1` alone is
/// pending, [`LineParser::parse_line`] buffers `l1` followed by a
/// newline, and its next call parses that buffer extended by the next
/// line `l2` — which this law shows is exactly the parse of the whole
/// two-line text supplied at once.
pub proof fn lemma_continuation_parses_whole(l1: Seq<char>, l2: Seq<char>)
    requires
        parse_text(l1) is Pending,
    ensures
        parse_text(l1.push('\n') + l2) == parse_text(whole_text(l1, l2)),
{
    assert(l1.push('\n') + l2 =~= whole_text(l1, l2));
}

/// The result of feeding one line to [`LineParser::parse_line`].
pub enum ParseOutcome {
    Pending,
    Empty,
    Failed(ParseError),
    Parsed(CommandList),
}

impl View for ParseOutcome {
    type V = LineOutcomeS;

    open spec fn view(&self) -> LineOutcomeS {
        match self {
            ParseOutcome::Pending => LineOutcomeS::Pending,
            ParseOutcome::Empty => LineOutcomeS::Empty,
            ParseOutcome::Failed(e) => LineOutcomeS::Failed(*e),
            ParseOutcome::Parsed(l) => LineOutcomeS::Parsed(l@),
        }
    }
}

/// The entry point of the grammar: feed it lines one at a time. While a
/// quote is open it buffers the text (with a newline after each buffered
/// line) and reports [`ParseOutcome::Pending`]; the next line then
/// continues the same logical statement.
pub struct LineParser {
    pub pending: String,
}

impl LineParser {
    /// The text buffered so far by pending continuations.
    pub open spec fn buffered(self) -> Seq<char> {
        self.pending@
    }

    pub fn new() -> (r: LineParser)
        ensures
            r.buffered() == Seq::<char>::empty(),
    {
        LineParser { pending: String::new() }
    }

    /// Parse one more line. The line is read as a continuation of any
    /// buffered text; the outcome is exactly `parse_text` of the whole
    /// accumulated text. On `Pending` the accumulated text plus a newline
    /// stays buffered; on any other outcome the buffer is cleared. A
    /// parsed statement is always well formed.
    pub fn parse_line(&mut self, line: &str) -> (r: ParseOutcome)
        ensures
            r@ == parse_text(old(self).buffered() + line@),
            r@ is Pending ==> final(self).buffered() == (old(self).buffered() + line@).push('\n'),
            !(r@ is Pending) ==> final(self).buffered() == Seq::<char>::empty(),
            r@ matches LineOutcomeS::Parsed(es) ==> list_wf(es),
    {
        let mut full = String::new();
        core::mem::swap(&mut full, &mut self.pending);
        full.append(line);
        let ghost full_text = old(self).buffered() + line@;
        match scan_line(full.as_str()) {
            Scanned::Pending => {
                full.append("\n");
                proof {
                    reveal_strlit("\n");
                    assert("\n"@ =~= seq!['\n']);
                    assert(full_text + "\n"@ =~= full_text.push('\n'));
                }
                self.pending = full;
                ParseOutcome::Pending
            },
            Scanned::Toks(toks) => {
                if toks.len() == 0 {
                    ParseOutcome::Empty
                } else {
                    proof {
                        lemma_parse_tokens_wf(view_tokens(toks@));
                    }
                    match parse_token_list(&toks) {
                        Ok(l) => ParseOutcome::Parsed(l),
                        Err(e) => ParseOutcome::Failed(e),
                    }
                }
            },
        }
    }
}

} // verus!
