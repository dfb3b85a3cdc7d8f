//! Laws of the decoder, proved over [`decode_spec`]: what it accepts is
//! exactly the grammar of one-line commands, and its three answers behave as
//! a reader of a byte stream needs them to.
use crate::command::{lemma_keyword_names_one_verb, CommandView, Verb};
use crate::decimal::{
    decimal_text, decimal_value, is_digit, lemma_text_round_trip, lemma_value_grows_with_length,
};
use crate::decode::{
    answers_grammar, argument_ok, begins_frame, command_of, decode_after_verb, decode_argument,
    decode_line_end, decode_spec, frame, is_frame, is_frame_with, is_token, lemma_line_end_bytes,
    line_end, names_verb, starts_frame, verb_of, DecodeView, InvalidReason, CR, LF, SP,
};
use crate::lexer::{is_alphanumeric, lemma_token_len, lemma_token_len_bounds, token_len};
use vstd::prelude::*;

verus! {

/// A sequence agrees with each of its prefixes byte by byte.
proof fn lemma_prefix_index(p: Seq<u8>, w: Seq<u8>, i: int)
    requires
        p.is_prefix_of(w),
        0 <= i < p.len(),
    ensures
        w[i] == p[i],
{
    assert(w.subrange(0, p.len() as int)[i] == w[i]);
}

/// Being a prefix carries over.
proof fn lemma_prefix_transitive(a: Seq<u8>, b: Seq<u8>, c: Seq<u8>)
    requires
        a.is_prefix_of(b),
        b.is_prefix_of(c),
    ensures
        a.is_prefix_of(c),
{
    assert forall|i: int| 0 <= i < a.len() implies a[i] == c.subrange(0, a.len() as int)[i] by {
        lemma_prefix_index(a, b, i);
        lemma_prefix_index(b, c, i);
    }
    assert(a =~= c.subrange(0, a.len() as int));
}

/// A window that starts with the keyword of `verb` starts with no other.
pub proof fn lemma_verb_of(w: Seq<u8>, verb: Verb)
    requires
        verb.keyword().is_prefix_of(w),
    ensures
        verb_of(w) == Some(verb),
{
    let chosen = choose|v: Verb| (#[trigger] v.keyword()).is_prefix_of(w);
    lemma_keyword_names_one_verb(w, verb, chosen);
}

/// Completeness: a window that starts with a line of the grammar decodes to
/// the command that the line carries, and to the line's length.
pub proof fn lemma_frame_decodes(w: Seq<u8>, f: Seq<u8>, c: CommandView)
    requires
        is_frame(f, c),
        f.is_prefix_of(w),
    ensures
        decode_spec(w) == DecodeView::Complete(c, f.len()),
{
    let token = choose|token: Seq<u8>| is_frame_with(f, c, token);
    let verb = c.verb();
    let k = verb.keyword().len() as int;
    lemma_line_end_bytes();
    assert(verb.keyword().is_prefix_of(f)) by {
        assert(verb.keyword() =~= f.subrange(0, k));
    }
    lemma_prefix_transitive(verb.keyword(), f, w);
    lemma_verb_of(w, verb);
    let rest = w.skip(k);
    if verb.takes_argument() {
        let t = token.len() as int;
        assert(f.len() == k + 1 + t + 2);
        assert(rest[0] == SP) by {
            lemma_prefix_index(f, w, k);
        }
        let field = rest.skip(1);
        assert forall|i: int| 0 <= i < t + 2 implies field[i] == f[k + 1 + i] by {
            lemma_prefix_index(f, w, k + 1 + i);
        }
        assert(field.take(t) =~= token);
        assert(field[t] == CR);
        lemma_token_len(field, t);
        let tail = field.skip(t);
        assert(tail[0] == CR && tail[1] == LF) by {
            assert(field[t + 1] == f[k + 1 + t + 1]);
        }
        assert(line_end() =~= tail.subrange(0, 2));
    } else {
        assert(f.len() == k + 2);
        assert(rest[0] == CR && rest[1] == LF) by {
            lemma_prefix_index(f, w, k);
            lemma_prefix_index(f, w, k + 1);
        }
        assert(line_end() =~= rest.subrange(0, 2));
    }
}

/// Soundness: whatever the decoder calls complete is a line of the grammar at
/// the start of the window, carrying the command that was decoded.
pub proof fn lemma_decoded_is_frame(w: Seq<u8>, c: CommandView, n: nat)
    requires
        decode_spec(w) == DecodeView::Complete(c, n),
    ensures
        0 < n <= w.len(),
        is_frame(w.take(n as int), c),
{
    lemma_line_end_bytes();
    let verb = verb_of(w).unwrap();
    let k = verb.keyword().len() as int;
    assert(verb.keyword().is_prefix_of(w));
    let rest = w.skip(k);
    let f = w.take(n as int);
    if verb.takes_argument() {
        let field = rest.skip(1);
        let t = token_len(field) as int;
        let token = field.take(t);
        lemma_token_len_bounds(field);
        let tail = field.skip(t);
        assert(line_end().is_prefix_of(tail));
        assert(tail[0] == CR && tail[1] == LF) by {
            lemma_prefix_index(line_end(), tail, 0);
            lemma_prefix_index(line_end(), tail, 1);
        }
        assert(n == k + 1 + t + 2);
        assert forall|i: int| 0 <= i < k implies f[i] == verb.keyword()[i] by {
            lemma_prefix_index(verb.keyword(), w, i);
        }
        assert(f =~= frame(verb, token));
        assert(is_frame_with(f, c, token));
    } else {
        assert(line_end().is_prefix_of(rest));
        assert(rest[0] == CR && rest[1] == LF) by {
            lemma_prefix_index(line_end(), rest, 0);
            lemma_prefix_index(line_end(), rest, 1);
        }
        assert(n == k + 2);
        assert forall|i: int| 0 <= i < k implies f[i] == verb.keyword()[i] by {
            lemma_prefix_index(verb.keyword(), w, i);
        }
        assert(f =~= frame(verb, Seq::empty()));
        assert(is_frame_with(f, c, Seq::empty()));
    }
}

/// The decoder accepts exactly the grammar: it answers `Complete(c, n)` if and
/// only if the first `n` bytes of the window are a line that carries `c`.
pub proof fn lemma_complete_iff_frame(w: Seq<u8>, c: CommandView, n: nat)
    ensures
        decode_spec(w) == DecodeView::Complete(c, n) <==> 0 < n <= w.len() && is_frame(
            w.take(n as int),
            c,
        ),
{
    if decode_spec(w) == DecodeView::Complete(c, n) {
        lemma_decoded_is_frame(w, c, n);
    }
    if 0 < n <= w.len() && is_frame(w.take(n as int), c) {
        assert(w.take(n as int).is_prefix_of(w));
        lemma_frame_decodes(w, w.take(n as int), c);
    }
}

/// Bytes that follow a complete command do not change how it is decoded.
pub proof fn lemma_later_bytes_do_not_matter(w: Seq<u8>, more: Seq<u8>)
    requires
        decode_spec(w) is Complete,
    ensures
        decode_spec(w + more) == decode_spec(w),
{
    let c = decode_spec(w)->Complete_0;
    let n = decode_spec(w)->Complete_1;
    lemma_decoded_is_frame(w, c, n);
    assert(w.take(n as int).is_prefix_of(w + more)) by {
        assert(w.take(n as int) =~= (w + more).subrange(0, n as int));
    }
    lemma_frame_decodes(w + more, w.take(n as int), c);
}

/// A window that ends inside a keyword may still become a command.
proof fn lemma_partial_keyword(w: Seq<u8>, verb: Verb, m: int)
    requires
        verb.keyword().is_prefix_of(w),
        0 <= m < verb.keyword().len(),
    ensures
        decode_spec(w.take(m)) == DecodeView::Incomplete,
{
    let p = w.take(m);
    assert(p.is_prefix_of(verb.keyword())) by {
        assert forall|i: int| 0 <= i < m implies p[i] == verb.keyword().subrange(0, m)[i] by {
            lemma_prefix_index(verb.keyword(), w, i);
        }
        assert(p =~= verb.keyword().subrange(0, m));
    }
    if let Some(other) = verb_of(p) {
        assert(other.keyword().is_prefix_of(p));
        assert(p.is_prefix_of(w));
        lemma_prefix_transitive(other.keyword(), p, w);
        lemma_keyword_names_one_verb(w, verb, other);
    }
}

/// A window that reaches past the keyword is decoded from what follows the
/// keyword.
proof fn lemma_decode_after_keyword(w: Seq<u8>, verb: Verb)
    requires
        verb.keyword().is_prefix_of(w),
    ensures
        decode_spec(w) == decode_after_verb(verb, w.skip(verb.keyword().len() as int)),
{
    lemma_verb_of(w, verb);
}

/// A line's end of which only a part has arrived may still be completed.
proof fn lemma_partial_line_end(command: CommandView, at: nat, tail: Seq<u8>, j: int)
    requires
        line_end().is_prefix_of(tail),
        0 <= j < 2,
    ensures
        decode_line_end(command, at, tail.take(j)) == DecodeView::Incomplete,
{
    lemma_line_end_bytes();
    let part = tail.take(j);
    assert(part =~= line_end().subrange(0, j)) by {
        if j == 1 {
            lemma_prefix_index(line_end(), tail, 0);
        }
    }
}

/// An argument of which only a part has arrived, or whose line's end is still
/// on its way, may still be completed.
proof fn lemma_partial_argument(verb: Verb, at: nat, field: Seq<u8>, j: int)
    requires
        decode_argument(verb, at, field) is Complete,
        0 <= j < token_len(field) + 2,
    ensures
        decode_argument(verb, at, field.take(j)) == DecodeView::Incomplete,
{
    let t = token_len(field) as int;
    let token = field.take(t);
    lemma_token_len_bounds(field);
    let part = field.take(j);
    let tail = field.skip(t);
    assert(line_end().is_prefix_of(tail));
    lemma_line_end_bytes();
    if j <= t {
        assert(part =~= token.take(j));
        assert forall|i: int| 0 <= i < part.len() implies is_alphanumeric(#[trigger] part[i]) by {
            assert(part[i] == token[i]);
        }
        assert(part.take(j) =~= part);
        lemma_token_len(part, j);
        if verb.takes_id() {
            lemma_value_grows_with_length(token, j);
            assert forall|i: int| 0 <= i < part.len() implies is_digit(#[trigger] part[i]) by {
                assert(part[i] == token[i]);
            }
        }
    } else {
        assert(part.take(t) =~= token);
        assert(part[t] == field[t]);
        lemma_token_len(part, t);
        assert(part.skip(t) =~= tail.take(j - t));
        lemma_partial_line_end(command_of(verb, token), at + t as nat, tail, j - t);
    }
}

/// What follows a keyword, cut short before the command's end, may still be
/// completed.
proof fn lemma_partial_after_verb(verb: Verb, rest: Seq<u8>, j: int)
    requires
        decode_after_verb(verb, rest) is Complete,
        0 <= j < decode_after_verb(verb, rest)->Complete_1 - verb.keyword().len(),
    ensures
        j < rest.len(),
        decode_after_verb(verb, rest.take(j)) == DecodeView::Incomplete,
{
    let k = verb.keyword().len();
    lemma_line_end_bytes();
    if verb.takes_argument() {
        let field = rest.skip(1);
        lemma_token_len_bounds(field);
        assert(line_end().is_prefix_of(field.skip(token_len(field) as int)));
        if j > 0 {
            assert(rest.take(j)[0] == rest[0]);
            assert(rest.take(j).skip(1) =~= field.take(j - 1));
            lemma_partial_argument(verb, k + 1, field, j - 1);
        }
    } else {
        assert(line_end().is_prefix_of(rest));
        if j > 0 {
            assert(rest.take(j)[0] == rest[0]);
            lemma_partial_line_end(command_of(verb, Seq::empty()), k, rest, j);
        }
    }
}

/// Resumability: while only a part of a command has arrived, the decoder asks
/// for more and decodes nothing. However the bytes of a command are split
/// over reads, it is decoded once, when its last byte is there.
pub proof fn lemma_partial_command_is_incomplete(w: Seq<u8>, m: int)
    requires
        decode_spec(w) is Complete,
        0 <= m < decode_spec(w)->Complete_1,
    ensures
        m < w.len(),
        decode_spec(w.take(m)) == DecodeView::Incomplete,
{
    let verb = verb_of(w).unwrap();
    let k = verb.keyword().len() as int;
    assert(verb.keyword().is_prefix_of(w));
    let rest = w.skip(k);
    if m < k {
        lemma_partial_keyword(w, verb, m);
    } else {
        lemma_partial_after_verb(verb, rest, m - k);
        let p = w.take(m);
        assert(verb.keyword().is_prefix_of(p)) by {
            assert(p.subrange(0, k) =~= w.subrange(0, k));
        }
        lemma_decode_after_keyword(p, verb);
        assert(p.skip(k) =~= rest.take(m - k));
    }
}

/// The command made from a verb is a command of that verb.
pub proof fn lemma_command_has_its_verb(verb: Verb, token: Seq<u8>)
    ensures
        command_of(verb, token).verb() == verb,
{
}

/// The text `0`, an argument that suits every verb.
pub open spec fn zero_text() -> Seq<u8> {
    seq!['0' as u8]
}

/// The line that carries `verb` with the argument `token` is a line of the
/// grammar where the argument suits the verb.
proof fn lemma_frame_is_frame(verb: Verb, token: Seq<u8>)
    requires
        verb.takes_argument() ==> is_token(token) && argument_ok(verb, token),
    ensures
        is_frame(frame(verb, token), command_of(verb, token)),
{
    lemma_command_has_its_verb(verb, token);
    assert(is_frame_with(frame(verb, token), command_of(verb, token), token));
}

/// `0` is an argument that suits every verb.
proof fn lemma_zero_text(verb: Verb)
    ensures
        is_token(zero_text()),
        argument_ok(verb, zero_text()),
{
    let z = zero_text();
    assert(z.drop_last() =~= Seq::<u8>::empty());
    assert(decimal_value(z.drop_last()) == 0);
    assert(decimal_value(z) == 0);
}

/// What is a prefix stays one behind a common head.
proof fn lemma_prefix_behind_head(head: Seq<u8>, a: Seq<u8>, b: Seq<u8>)
    requires
        a.is_prefix_of(b),
    ensures
        (head + a).is_prefix_of(head + b),
{
    assert forall|i: int| 0 <= i < (head + a).len() implies (head + a)[i] == (head + b).subrange(
        0,
        (head + a).len() as int,
    )[i] by {
        if i >= head.len() {
            lemma_prefix_index(a, b, i - head.len());
        }
    }
    assert(head + a =~= (head + b).subrange(0, (head + a).len() as int));
}

/// The beginning of a line's end can be completed to the line's end.
proof fn lemma_line_end_can_be_completed(command: CommandView, at: nat, tail: Seq<u8>)
    requires
        decode_line_end(command, at, tail) == DecodeView::Incomplete,
    ensures
        tail.is_prefix_of(line_end()),
        tail.len() < line_end().len(),
{
    lemma_line_end_bytes();
    if tail.len() >= 2 {
        assert(line_end() =~= tail.subrange(0, 2));
    }
}

/// An argument that is still arriving can be completed: what has arrived is
/// the beginning of an argument that suits the verb, followed by the line's
/// end.
proof fn lemma_argument_can_be_completed(verb: Verb, at: nat, field: Seq<u8>) -> (token: Seq<u8>)
    requires
        verb.takes_argument(),
        decode_argument(verb, at, field) == DecodeView::Incomplete,
    ensures
        is_token(token),
        argument_ok(verb, token),
        field.is_prefix_of(token + line_end()),
        field.len() < (token + line_end()).len(),
{
    lemma_line_end_bytes();
    let n = token_len(field) as int;
    lemma_token_len_bounds(field);
    if n == field.len() {
        assert(field.take(n) =~= field);
        if n == 0 {
            lemma_zero_text(verb);
            let token = zero_text();
            assert(field =~= (token + line_end()).subrange(0, 0));
            token
        } else {
            assert(field =~= (field + line_end()).subrange(0, n));
            field
        }
    } else {
        let token = field.take(n);
        let tail = field.skip(n);
        assert(field =~= token + tail);
        lemma_line_end_can_be_completed(command_of(verb, token), at + n as nat, tail);
        lemma_prefix_behind_head(token, tail, line_end());
        token
    }
}

/// A window that the decoder calls incomplete is the beginning of a line of
/// the grammar: some bytes, if they arrive, complete a command.
pub proof fn lemma_incomplete_can_be_completed(w: Seq<u8>) -> (f: Seq<u8>)
    requires
        decode_spec(w) == DecodeView::Incomplete,
    ensures
        exists|c: CommandView| is_frame(f, c),
        w.is_prefix_of(f),
        w.len() < f.len(),
{
    lemma_line_end_bytes();
    match verb_of(w) {
        None => {
            let verb = choose|v: Verb| w.is_prefix_of(#[trigger] v.keyword());
            lemma_zero_text(verb);
            lemma_frame_is_frame(verb, zero_text());
            let f = frame(verb, zero_text());
            assert(verb.keyword().is_prefix_of(f)) by {
                assert(verb.keyword() =~= f.subrange(0, verb.keyword().len() as int));
            }
            lemma_prefix_transitive(w, verb.keyword(), f);
            f
        },
        Some(verb) => {
            let head = verb.keyword();
            let k = head.len() as int;
            assert(head.is_prefix_of(w));
            let rest = w.skip(k);
            assert(w =~= head + rest) by {
                assert forall|i: int| 0 <= i < k implies w[i] == head[i] by {
                    lemma_prefix_index(head, w, i);
                }
            }
            if rest.len() == 0 {
                lemma_zero_text(verb);
                lemma_frame_is_frame(verb, zero_text());
                let f = frame(verb, zero_text());
                assert(w =~= f.subrange(0, w.len() as int));
                f
            } else if !verb.takes_argument() {
                lemma_frame_is_frame(verb, Seq::empty());
                lemma_line_end_can_be_completed(command_of(verb, Seq::empty()), k as nat, rest);
                lemma_prefix_behind_head(head, rest, line_end());
                frame(verb, Seq::empty())
            } else {
                let field = rest.skip(1);
                assert(rest =~= seq![SP] + field);
                let token = lemma_argument_can_be_completed(verb, (k + 1) as nat, field);
                lemma_frame_is_frame(verb, token);
                lemma_prefix_behind_head(head + seq![SP], field, token + line_end());
                assert(w =~= head + seq![SP] + field);
                assert(frame(verb, token) =~= head + seq![SP] + (token + line_end()));
                frame(verb, token)
            }
        },
    }
}

/// The decoder asks for more exactly when more can help: its answer is
/// `Incomplete` if and only if the window is the beginning of a line of the
/// grammar and not yet the whole line.
pub proof fn lemma_incomplete_iff_partial_frame(w: Seq<u8>)
    ensures
        decode_spec(w) == DecodeView::Incomplete <==> begins_frame(w),
{
    if decode_spec(w) == DecodeView::Incomplete {
        let f = lemma_incomplete_can_be_completed(w);
        let c = choose|c: CommandView| is_frame(f, c);
        assert(is_frame(f, c) && w.is_prefix_of(f) && w.len() < f.len());
    }
    if begins_frame(w) {
        let (f, c) = choose|f: Seq<u8>, c: CommandView| #[trigger]
            is_frame(f, c) && w.is_prefix_of(f) && w.len() < f.len();
        assert(f.is_prefix_of(f)) by {
            assert(f =~= f.subrange(0, f.len() as int));
        }
        lemma_frame_decodes(f, f, c);
        lemma_partial_command_is_incomplete(f, w.len() as int);
        assert(f.take(w.len() as int) =~= w);
    }
}

/// A refused window is a bad format exactly when it names a verb: it starts
/// with a keyword and a space or CR.
pub proof fn lemma_reason_of_refusal(w: Seq<u8>)
    requires
        decode_spec(w) is Invalid,
    ensures
        decode_spec(w) == DecodeView::Invalid(InvalidReason::BadFormat) <==> exists|v: Verb|
            names_verb(w, v),
{
    lemma_line_end_bytes();
    if let Some(verb) = verb_of(w) {
        let k = verb.keyword().len() as int;
        assert(verb.keyword().is_prefix_of(w));
        assert(w.len() > k);
        if w[k] == SP || w[k] == CR {
            assert(names_verb(w, verb));
        }
    }
    if exists|v: Verb| names_verb(w, v) {
        let v = choose|v: Verb| names_verb(w, v);
        lemma_verb_of(w, v);
        assert(w.skip(v.keyword().len() as int)[0] == w[v.keyword().len() as int]);
    }
}

/// The grammar decides the answer: [`decode_spec`] is the one answer that
/// [`answers_grammar`] admits on each window.
pub proof fn lemma_decode_spec_is_the_grammar(w: Seq<u8>, answer: DecodeView)
    ensures
        answers_grammar(w, answer) <==> answer == decode_spec(w),
{
    lemma_incomplete_iff_partial_frame(w);
    match decode_spec(w) {
        DecodeView::Complete(c, n) => {
            lemma_decoded_is_frame(w, c, n);
            assert(starts_frame(w));
        },
        DecodeView::Incomplete => {},
        DecodeView::Invalid(_) => {
            lemma_reason_of_refusal(w);
        },
    }
    if starts_frame(w) {
        let (c, n) = choose|c: CommandView, n: nat|
            0 < n <= w.len() && #[trigger] is_frame(w.take(n as int), c);
        assert(w.take(n as int).is_prefix_of(w));
        lemma_frame_decodes(w, w.take(n as int), c);
    }
    if let DecodeView::Complete(c, n) = answer {
        if 0 < n <= w.len() && is_frame(w.take(n as int), c) {
            assert(w.take(n as int).is_prefix_of(w));
            lemma_frame_decodes(w, w.take(n as int), c);
        }
    }
}

/// A refusal is final: once the decoder has called a window invalid, no bytes
/// that arrive later change the answer or its reason.
pub proof fn lemma_refusal_is_final(w: Seq<u8>, more: Seq<u8>)
    requires
        decode_spec(w) is Invalid,
    ensures
        decode_spec(w + more) == decode_spec(w),
{
    let longer = w + more;
    assert(w.is_prefix_of(longer)) by {
        assert(w =~= longer.subrange(0, w.len() as int));
    }
    // The longer window is neither complete nor incomplete.
    if let DecodeView::Complete(c, n) = decode_spec(longer) {
        lemma_decoded_is_frame(longer, c, n);
        let f = longer.take(n as int);
        if n <= w.len() {
            assert(f =~= w.take(n as int));
            lemma_frame_decodes(w, w.take(n as int), c);
        } else {
            assert(w.is_prefix_of(f)) by {
                assert(w =~= f.subrange(0, w.len() as int));
            }
            lemma_incomplete_iff_partial_frame(w);
        }
    }
    if decode_spec(longer) == DecodeView::Incomplete {
        let f = lemma_incomplete_can_be_completed(longer);
        lemma_prefix_transitive(w, longer, f);
        lemma_incomplete_iff_partial_frame(w);
    }
    // The reason stays the same.
    lemma_reason_is_final(w, more);
}

/// While a window is refused, the reason for it does not depend on bytes that
/// arrive later.
proof fn lemma_reason_is_final(w: Seq<u8>, more: Seq<u8>)
    requires
        decode_spec(w) is Invalid,
        decode_spec(w + more) is Invalid,
    ensures
        decode_spec(w + more) == decode_spec(w),
{
    let longer = w + more;
    assert(w.is_prefix_of(longer)) by {
        assert(w =~= longer.subrange(0, w.len() as int));
    }
    match verb_of(w) {
        Some(verb) => {
            assert(verb.keyword().is_prefix_of(w));
            lemma_prefix_transitive(verb.keyword(), w, longer);
            lemma_verb_of(longer, verb);
            let k = verb.keyword().len() as int;
            assert(longer.skip(k)[0] == w.skip(k)[0]);
        },
        None => {
            if let Some(verb) = verb_of(longer) {
                assert(verb.keyword().is_prefix_of(longer));
                let k = verb.keyword().len() as int;
                if k <= w.len() {
                    assert(verb.keyword() =~= w.subrange(0, k)) by {
                        assert(longer.subrange(0, k) =~= w.subrange(0, k));
                    }
                    assert(verb.keyword().is_prefix_of(w));
                } else {
                    assert(w =~= verb.keyword().subrange(0, w.len() as int)) by {
                        assert forall|i: int| 0 <= i < w.len() implies w[i] == verb.keyword()[i] by {
                            lemma_prefix_index(verb.keyword(), longer, i);
                        }
                    }
                    assert(w.is_prefix_of(verb.keyword()));
                }
            }
        },
    }
}

/// An id that the broker prints can be sent back: the line made of `delete`
/// or `release` and the printed id decodes to that id.
pub proof fn lemma_printed_id_is_read_back(verb: Verb, id: u64)
    requires
        verb.takes_id(),
    ensures
        is_frame(frame(verb, decimal_text(id as nat)), command_of(verb, decimal_text(id as nat))),
        command_of(verb, decimal_text(id as nat)) == if verb == Verb::Delete {
            CommandView::Delete { id }
        } else {
            CommandView::Release { id }
        },
{
    let text = decimal_text(id as nat);
    lemma_text_round_trip(id as nat);
    assert forall|i: int| 0 <= i < text.len() implies is_alphanumeric(#[trigger] text[i]) by {
        assert(is_digit(text[i]));
    }
    lemma_frame_is_frame(verb, text);
}

/// The commands that a stream of bytes holds, in order: decoding goes on
/// behind each complete command and stops at the first window that is
/// incomplete or refused.
pub open spec fn decoded_commands(w: Seq<u8>) -> Seq<CommandView>
    decreases w.len(),
{
    match decode_spec(w) {
        DecodeView::Complete(command, n) => if 0 < n <= w.len() {
            seq![command] + decoded_commands(w.skip(n as int))
        } else {
            Seq::empty()
        },
        _ => Seq::empty(),
    }
}

/// The bytes of a stream that are left behind its complete commands.
pub open spec fn undecoded(w: Seq<u8>) -> Seq<u8>
    decreases w.len(),
{
    match decode_spec(w) {
        DecodeView::Complete(_, n) => if 0 < n <= w.len() {
            undecoded(w.skip(n as int))
        } else {
            w
        },
        _ => w,
    }
}

/// Behind a complete command, the stream goes on with what follows it.
proof fn lemma_stream_behind_command(w: Seq<u8>, command: CommandView, n: nat)
    requires
        decode_spec(w) == DecodeView::Complete(command, n),
    ensures
        0 < n <= w.len(),
        decoded_commands(w) == seq![command] + decoded_commands(w.skip(n as int)),
        undecoded(w) == undecoded(w.skip(n as int)),
{
    lemma_decoded_is_frame(w, command, n);
}

/// It does not matter where the reads cut the stream: decoding what has
/// arrived, and then what is left of it together with what arrives later,
/// gives the commands of the whole stream, each of them once.
pub proof fn lemma_split_stream(first: Seq<u8>, second: Seq<u8>)
    ensures
        decoded_commands(first + second) == decoded_commands(first) + decoded_commands(
            undecoded(first) + second,
        ),
    decreases first.len(),
{
    let whole = first + second;
    match decode_spec(first) {
        DecodeView::Complete(command, n) => {
            lemma_stream_behind_command(first, command, n);
            lemma_later_bytes_do_not_matter(first, second);
            lemma_stream_behind_command(whole, command, n);
            assert(whole.skip(n as int) =~= first.skip(n as int) + second);
            lemma_split_stream(first.skip(n as int), second);
            let tail = decoded_commands(first.skip(n as int));
            let rest = decoded_commands(undecoded(first) + second);
            assert(seq![command] + (tail + rest) =~= (seq![command] + tail) + rest);
        },
        _ => {
            assert(decoded_commands(first) =~= Seq::<CommandView>::empty());
            assert(undecoded(first) == first);
            assert(Seq::<CommandView>::empty() + decoded_commands(whole) =~= decoded_commands(
                whole,
            ));
        },
    }
}

} // verus!
