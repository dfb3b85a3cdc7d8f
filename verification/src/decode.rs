//! The command decoder: a pure function from the unconsumed bytes of a
//! connection to a command, to the news that more bytes are needed, or to a
//! refusal.
//!
//! A command is one line: a keyword, for some verbs a space and one argument
//! made of letters and digits, and the two bytes CR LF. [`decode_spec`] says
//! what the decoder answers on every window of bytes; [`decode`] computes it
//! with nom's streaming recognisers.
use crate::command::{
    lemma_keyword_names_one_verb, lemma_verbs_complete, verbs, Command, CommandView, Verb,
    VERB_COUNT,
};
use crate::decimal::{decimal_value, is_u64_text, parse_decimal};
use crate::decode_laws::lemma_decode_spec_is_the_grammar;
use crate::lexer::{all_alphanumeric, alphanumeric, lemma_token_len, tag, token_len, Scan};
use vstd::prelude::*;
use vstd::slice::{slice_subrange, slice_to_vec};
use vstd::string::StringSliceAdditionalSpecFns;

verus! {

broadcast use vstd::string::group_string_axioms;

/// The space between a keyword and its argument.
pub const SP: u8 = 0x20;

/// Carriage return, the first byte of a line's end.
pub const CR: u8 = 0x0d;

/// Line feed, the second byte of a line's end.
pub const LF: u8 = 0x0a;

/// Why a window of bytes is no command and cannot become one.
#[derive(Clone, Copy, Debug, PartialEq, Eq, Structural)]
pub enum InvalidReason {
    /// The bytes do not start with any keyword.
    UnknownCommand,
    /// A keyword was recognised, and what follows it is malformed.
    BadFormat,
}

/// The decoder's answer.
#[derive(Debug, PartialEq, Eq)]
pub enum DecodeResult {
    /// The window starts with a whole command that takes up this many bytes.
    Complete(Command, usize),
    /// The window may be the beginning of a command; more bytes are needed.
    Incomplete,
    /// The window is not the beginning of any command.
    Invalid(InvalidReason),
}

/// What the contracts say of a [`DecodeResult`].
pub enum DecodeView {
    Complete(CommandView, nat),
    Incomplete,
    Invalid(InvalidReason),
}

impl View for DecodeResult {
    type V = DecodeView;

    open spec fn view(&self) -> DecodeView {
        match self {
            DecodeResult::Complete(command, consumed) => DecodeView::Complete(
                command@,
                *consumed as nat,
            ),
            DecodeResult::Incomplete => DecodeView::Incomplete,
            DecodeResult::Invalid(reason) => DecodeView::Invalid(*reason),
        }
    }
}

/// The end of a line, of a command as of a response.
pub const LINE_END: &'static str = "\r\n";

/// The two bytes that end a command.
pub open spec fn line_end() -> Seq<u8> {
    LINE_END.spec_bytes()
}

/// The verb whose keyword the window starts with.
pub open spec fn verb_of(w: Seq<u8>) -> Option<Verb> {
    if exists|v: Verb| (#[trigger] v.keyword()).is_prefix_of(w) {
        Some(choose|v: Verb| (#[trigger] v.keyword()).is_prefix_of(w))
    } else {
        None
    }
}

/// The window is the beginning of some keyword.
pub open spec fn starts_keyword(w: Seq<u8>) -> bool {
    exists|v: Verb| w.is_prefix_of(#[trigger] v.keyword())
}

/// The argument, or as much of it as has arrived, suits the verb: a job id is
/// made of digits and fits in 64 bits.
pub open spec fn argument_ok(verb: Verb, token: Seq<u8>) -> bool {
    verb.takes_id() ==> is_u64_text(token)
}

/// The command that `verb` and its argument make. A verb without argument
/// ignores `token`.
pub open spec fn command_of(verb: Verb, token: Seq<u8>) -> CommandView {
    match verb {
        Verb::Put => CommandView::Put { data: token },
        Verb::Reserve => CommandView::Reserve,
        Verb::Delete => CommandView::Delete { id: decimal_value(token) as u64 },
        Verb::Release => CommandView::Release { id: decimal_value(token) as u64 },
        Verb::Watch => CommandView::Watch { tube: token },
        Verb::Use => CommandView::UseTube { tube: token },
        Verb::ListTubes => CommandView::ListTubes,
        Verb::StatsTube => CommandView::StatsTube { tube: token },
        Verb::PeekReady => CommandView::PeekReady,
        Verb::PeekDelayed => CommandView::PeekDelayed,
        Verb::PeekBuried => CommandView::PeekBuried,
    }
}

/// An argument: a run of letters and digits that is not empty.
pub open spec fn is_token(s: Seq<u8>) -> bool {
    s.len() > 0 && all_alphanumeric(s)
}

/// The line that carries `verb` with the argument `token`: the keyword, for a
/// verb with an argument a space and the argument, and CR LF. A verb without
/// argument ignores `token`.
pub open spec fn frame(verb: Verb, token: Seq<u8>) -> Seq<u8> {
    if verb.takes_argument() {
        verb.keyword() + seq![SP] + token + line_end()
    } else {
        verb.keyword() + line_end()
    }
}

/// `f` is the line that carries the command `c`, and `token` is its argument.
pub open spec fn is_frame_with(f: Seq<u8>, c: CommandView, token: Seq<u8>) -> bool {
    &&& f == frame(c.verb(), token)
    &&& c == command_of(c.verb(), token)
    &&& c.verb().takes_argument() ==> is_token(token) && argument_ok(c.verb(), token)
}

/// `f` is a line of the grammar, and `c` is the command that it carries.
pub open spec fn is_frame(f: Seq<u8>, c: CommandView) -> bool {
    exists|token: Seq<u8>| is_frame_with(f, c, token)
}

/// The window starts with a whole line of the grammar.
pub open spec fn starts_frame(w: Seq<u8>) -> bool {
    exists|c: CommandView, n: nat| 0 < n <= w.len() && #[trigger] is_frame(w.take(n as int), c)
}

/// The window is the beginning of a line of the grammar, and not the whole
/// line.
pub open spec fn begins_frame(w: Seq<u8>) -> bool {
    exists|f: Seq<u8>, c: CommandView| #[trigger]
        is_frame(f, c) && w.is_prefix_of(f) && w.len() < f.len()
}

/// The window starts with the keyword of `verb` and the space or CR that ends
/// the word.
pub open spec fn names_verb(w: Seq<u8>, verb: Verb) -> bool {
    let k = verb.keyword().len() as int;
    verb.keyword().is_prefix_of(w) && w.len() > k && (w[k] == SP || w[k] == CR)
}

/// What the grammar asks of the decoder's answer on the window `w`: complete
/// where the window starts with a whole line, with the command that the line
/// carries and the line's length; incomplete where the window is the
/// beginning of a line; invalid where it is neither, as a bad format if the
/// window names a verb and as an unknown command if it does not.
pub open spec fn answers_grammar(w: Seq<u8>, answer: DecodeView) -> bool {
    match answer {
        DecodeView::Complete(c, n) => 0 < n <= w.len() && is_frame(w.take(n as int), c),
        DecodeView::Incomplete => begins_frame(w),
        DecodeView::Invalid(reason) => {
            &&& !starts_frame(w)
            &&& !begins_frame(w)
            &&& reason == InvalidReason::BadFormat <==> exists|v: Verb| names_verb(w, v)
        },
    }
}

/// The answer once `command` has been read in the first `at` bytes and `tail`
/// is what follows: the line must end here.
pub open spec fn decode_line_end(command: CommandView, at: nat, tail: Seq<u8>) -> DecodeView {
    if line_end().is_prefix_of(tail) {
        DecodeView::Complete(command, at + 2)
    } else if tail.is_prefix_of(line_end()) {
        DecodeView::Incomplete
    } else {
        DecodeView::Invalid(InvalidReason::BadFormat)
    }
}

/// The answer once `verb` and a space have been read in the first `at` bytes
/// and `field` is what follows: the argument, then the line's end.
pub open spec fn decode_argument(verb: Verb, at: nat, field: Seq<u8>) -> DecodeView {
    let n = token_len(field);
    let token = field.take(n as int);
    if !argument_ok(verb, token) {
        DecodeView::Invalid(InvalidReason::BadFormat)
    } else if n == field.len() {
        DecodeView::Incomplete
    } else if n == 0 {
        DecodeView::Invalid(InvalidReason::BadFormat)
    } else {
        decode_line_end(command_of(verb, token), at + n, field.skip(n as int))
    }
}

/// The answer once the keyword of `verb` has been read and `rest` follows it.
pub open spec fn decode_after_verb(verb: Verb, rest: Seq<u8>) -> DecodeView {
    let at = verb.keyword().len();
    if rest.len() == 0 {
        DecodeView::Incomplete
    } else if rest[0] != SP && rest[0] != CR {
        DecodeView::Invalid(InvalidReason::UnknownCommand)
    } else if !verb.takes_argument() {
        decode_line_end(command_of(verb, Seq::empty()), at, rest)
    } else if rest[0] == CR {
        DecodeView::Invalid(InvalidReason::BadFormat)
    } else {
        decode_argument(verb, at + 1, rest.skip(1))
    }
}

/// What the decoder answers on the window `w`.
///
/// A window that starts with no keyword is `Incomplete` while it can still
/// grow into one, and an unknown command otherwise. After a keyword, a byte
/// other than a space or CR means that the word is no keyword after all. From
/// there on the verb is known, and whatever breaks the grammar is a bad
/// format: an argument where none belongs, none where one belongs, an empty
/// one, a job id that is no number or does not fit in 64 bits (refused as soon
/// as the bytes that have arrived show it), or a line that does not end in
/// CR LF.
pub open spec fn decode_spec(w: Seq<u8>) -> DecodeView {
    match verb_of(w) {
        Some(verb) => decode_after_verb(verb, w.skip(verb.keyword().len() as int)),
        None => if starts_keyword(w) {
            DecodeView::Incomplete
        } else {
            DecodeView::Invalid(InvalidReason::UnknownCommand)
        },
    }
}

/// The bytes of the line's end.
pub proof fn lemma_line_end_bytes()
    ensures
        line_end() =~= seq![CR, LF],
{
    reveal_strlit("\r\n");
    assert(vstd::string::is_ascii("\r\n"));
}

/// Builds the command of a verb that takes no argument.
fn bare_command(verb: Verb) -> (command: Command)
    requires
        !verb.takes_argument(),
    ensures
        command@ == command_of(verb, Seq::empty()),
{
    match verb {
        Verb::Reserve => Command::Reserve,
        Verb::ListTubes => Command::ListTubes,
        Verb::PeekReady => Command::PeekReady,
        Verb::PeekDelayed => Command::PeekDelayed,
        _ => Command::PeekBuried,
    }
}

/// Builds the command of `verb` from its argument, if the argument suits it.
fn make_command(verb: Verb, token: &[u8]) -> (r: Option<Command>)
    requires
        verb.takes_argument(),
    ensures
        r is Some <==> argument_ok(verb, token@),
        r matches Some(command) ==> command@ == command_of(verb, token@),
{
    match verb {
        Verb::Put => Some(Command::Put { data: slice_to_vec(token) }),
        Verb::Delete => match parse_decimal(token) {
            Some(id) => Some(Command::Delete { id }),
            None => None,
        },
        Verb::Release => match parse_decimal(token) {
            Some(id) => Some(Command::Release { id }),
            None => None,
        },
        Verb::Watch => Some(Command::Watch { tube: slice_to_vec(token) }),
        Verb::Use => Some(Command::UseTube { tube: slice_to_vec(token) }),
        _ => Some(Command::StatsTube { tube: slice_to_vec(token) }),
    }
}

/// Expects the end of the line at the start of `tail`.
fn finish_line(command: Command, at: usize, tail: &[u8]) -> (r: DecodeResult)
    requires
        at + tail@.len() <= usize::MAX,
    ensures
        r@ == decode_line_end(command@, at as nat, tail@),
{
    match tag(LINE_END.as_bytes(), tail) {
        Scan::Matched { token: _, rest: _ } => {
            proof {
                lemma_line_end_bytes();
            }
            DecodeResult::Complete(command, at + 2)
        },
        Scan::Incomplete => DecodeResult::Incomplete,
        Scan::Mismatch => DecodeResult::Invalid(InvalidReason::BadFormat),
    }
}

/// Decodes what follows the keyword of `verb`.
fn finish_command(verb: Verb, window: &[u8], rest: &[u8]) -> (r: DecodeResult)
    requires
        verb.keyword().is_prefix_of(window@),
        rest@ == window@.skip(verb.keyword().len() as int),
    ensures
        r@ == decode_after_verb(verb, rest@),
{
    if rest.len() == 0 {
        return DecodeResult::Incomplete;
    }
    let first: u8 = rest[0];
    if first != SP && first != CR {
        return DecodeResult::Invalid(InvalidReason::UnknownCommand);
    }
    let at: usize = window.len() - rest.len();
    if !verb.expects_argument() {
        return finish_line(bare_command(verb), at, rest);
    }
    if first == CR {
        return DecodeResult::Invalid(InvalidReason::BadFormat);
    }
    let field = slice_subrange(rest, 1, rest.len());
    assert(field@ =~= rest@.skip(1));
    match alphanumeric(field) {
        Scan::Incomplete => {
            proof {
                assert(field@.take(field@.len() as int) =~= field@);
                lemma_token_len(field@, field@.len() as int);
            }
            if verb.expects_id() && parse_decimal(field).is_none() {
                DecodeResult::Invalid(InvalidReason::BadFormat)
            } else {
                DecodeResult::Incomplete
            }
        },
        Scan::Mismatch => {
            proof {
                assert(field@.take(0) =~= Seq::<u8>::empty());
                lemma_token_len(field@, 0);
                assert(decimal_value(Seq::<u8>::empty()) == 0);
            }
            DecodeResult::Invalid(InvalidReason::BadFormat)
        },
        Scan::Matched { token, rest: tail } => {
            proof {
                assert(field@.take(token@.len() as int) =~= token@);
                assert(field@.skip(token@.len() as int) =~= tail@);
                assert(field@[token@.len() as int] == tail@[0]);
                lemma_token_len(field@, token@.len() as int);
            }
            match make_command(verb, token) {
                Some(command) => finish_line(command, at + 1 + token.len(), tail),
                None => DecodeResult::Invalid(InvalidReason::BadFormat),
            }
        },
    }
}

/// Decodes the first command of `window`, or says why there is none.
///
/// The answer is the one that the grammar admits: `Complete` with a command
/// and a length exactly when the window starts with the line of that length
/// that carries the command, `Incomplete` exactly when the window is the
/// beginning of a line, and `Invalid` otherwise.
pub fn decode(window: &[u8]) -> (r: DecodeResult)
    ensures
        r@ == decode_spec(window@),
        answers_grammar(window@, r@),
{
    let r = scan(window);
    proof {
        lemma_decode_spec_is_the_grammar(window@, r@);
    }
    r
}

/// Tries the keywords in turn and decodes what follows the one that matches.
fn scan(window: &[u8]) -> (r: DecodeResult)
    ensures
        r@ == decode_spec(window@),
{
    let mut partial: bool = false;
    let mut i: usize = 0;
    while i < VERB_COUNT
        invariant
            i <= VERB_COUNT,
            forall|j: int| 0 <= j < i ==> !(#[trigger] verbs()[j]).keyword().is_prefix_of(window@),
            partial <==> exists|j: int|
                0 <= j < i && window@.is_prefix_of((#[trigger] verbs()[j]).keyword()),
        decreases VERB_COUNT - i,
    {
        let verb = Verb::nth(i);
        match tag(verb.keyword_str().as_bytes(), window) {
            Scan::Matched { token: _, rest } => {
                proof {
                    if let Some(other) = verb_of(window@) {
                        lemma_keyword_names_one_verb(window@, verb, other);
                    }
                }
                return finish_command(verb, window, rest);
            },
            Scan::Incomplete => {
                partial = true;
            },
            Scan::Mismatch => {},
        }
        i += 1;
    }
    proof {
        assert forall|v: Verb| !(#[trigger] v.keyword()).is_prefix_of(window@) by {
            lemma_verbs_complete(v);
        }
        if starts_keyword(window@) {
            let v = choose|v: Verb| window@.is_prefix_of(#[trigger] v.keyword());
            lemma_verbs_complete(v);
        }
    }
    if partial {
        DecodeResult::Incomplete
    } else {
        DecodeResult::Invalid(InvalidReason::UnknownCommand)
    }
}

} // verus!
