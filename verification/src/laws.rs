//! Laws of the codec, stated and proved over the stage step functions.

use vstd::prelude::*;

use crate::ast::DatumParser;
use crate::ast::DatumParserStack;
use crate::ast::DatumValueView;
use crate::ast::parser_step;
use crate::atom::DatumAtomView;
use crate::atom::spec_atom_from_token;
use crate::atom::spec_atom_write;
use crate::byte_decoder::utf8_decoder_step;
use crate::char_classes::DatumChar;
use crate::char_classes::DatumCharClass;
use crate::char_classes::classify;
use crate::char_classes::spec_datum_char;
use crate::decoder::DatumDecoder;
use crate::decoder::DatumDecoderState;
use crate::decoder::decoder_step;
use crate::errors::DatumErrorKind;
use crate::errors::DatumOffset;
use crate::numbers::spec_parse_i64;
use crate::numbers::spec_i64_text;
use crate::numbers::is_dec_digit;
use crate::numbers::all_dec_digits;
use crate::numbers::dec_digits;
use crate::numbers::lemma_dec_digits_denote;
use crate::numbers::float_dfa;
use crate::numbers::float_dfa_run;
use crate::numbers::float_text_is_number;
use crate::numbers::float_text_is_nan;
use crate::numbers::float_text_is_inf;
use crate::numbers::sign_body;
use crate::numbers::has_float_indicator;
use crate::numbers::float_text_negative;
use crate::token::spec_token_from_parts;
use crate::numbers::lemma_i64_text_round_trip;
use crate::pipe::DatumPipe;
use crate::pipe::lemma_pipe_run_concat;
use crate::pipe::lemma_pipe_run_push;
use crate::pipe::pipe_run;
use crate::token::DatumPipeTokenizer;
use crate::token::DatumTokenView;
use crate::token::apply_actions;
use crate::token::float_token_text_wf;
use crate::token::potential_id_chars;
use crate::token::spec_token_write;
use crate::token::string_body_chars;
use crate::token::symbol_write_chars;
use crate::token::float_write_chars;
use crate::token_core::DatumTokenType;
use crate::token_core::DatumTokenizer;
use crate::token_core::DatumTokenizerState;
use crate::token_core::tokenizer_step;

verus! {

broadcast use {
    crate::char_classes::lemma_datum_char_new,
    crate::char_classes::lemma_datum_char_ext,
    vstd::utf8::char_u32_cast,
    vstd::seq::axiom_seq_index_decreases,
    vstd::seq::axiom_seq_subrange_decreases,
};

/// End of input at the decoder is never permanently bad: it is clean in the
/// normal state and an interruption inside an escape, so feeding more input
/// and retrying is always a sound recovery from truncation at this stage.
pub proof fn lemma_decoder_eof_not_bad_data(pre: DatumDecoder, at: DatumOffset)
    ensures
        ({
            let step = decoder_step(pre, at, None);
            &&& step.error is Some ==> step.error.unwrap().kind == DatumErrorKind::Interrupted
            &&& step.error is Some <==> pre.0 != DatumDecoderState::Normal
        }),
{
}

/// End of input at the UTF-8 decoder is never permanently bad: it is clean
/// with an empty scratch buffer and an interruption inside an encoding.
pub proof fn lemma_utf8_decoder_eof_not_bad_data(
    pre: (Seq<u8>, DatumOffset),
    at: DatumOffset,
)
    ensures
        ({
            let step = utf8_decoder_step(pre, at, None);
            &&& step.error is Some ==> step.error.unwrap().kind == DatumErrorKind::Interrupted
            &&& step.error is Some <==> pre.0.len() != 0
        }),
{
}

/// End of input at the tokenizer is never permanently bad: it is an
/// interruption inside a string, and clean everywhere else (a pending
/// identifier-like token is closed with its immediate type).
pub proof fn lemma_tokenizer_eof_not_bad_data(
    pre: crate::token_core::DatumTokenizer,
    at: DatumOffset,
)
    ensures
        ({
            let step = tokenizer_step(pre, at, None);
            &&& step.error is Some ==> step.error.unwrap().kind == DatumErrorKind::Interrupted
            &&& step.error is Some <==> pre.0 is String
        }),
{
}

/// End of input at the parser is never permanently bad: it is an
/// interruption inside an unclosed list, and clean between top-level values.
pub proof fn lemma_parser_eof_not_bad_data(
    pre: (DatumOffset, Seq<Seq<crate::ast::DatumValueView>>),
    at: DatumOffset,
)
    ensures
        ({
            let step = parser_step(pre, at, None);
            &&& step.error is Some ==> step.error.unwrap().kind == DatumErrorKind::Interrupted
            &&& step.error is Some <==> pre.1.len() != 0
        }),
{
}

/// The token that re-creates an atom: strings, symbols and numbers carry
/// over, booleans and nil become their special IDs.
pub open spec fn atom_token(a: DatumAtomView) -> DatumTokenView {
    match a {
        DatumAtomView::String(b) => DatumTokenView::String(0, b),
        DatumAtomView::Symbol(b) => DatumTokenView::Symbol(0, b),
        DatumAtomView::Integer(v) => DatumTokenView::Integer(0, v),
        DatumAtomView::Float(b) => DatumTokenView::Float(0, b),
        DatumAtomView::Boolean(true) => DatumTokenView::SpecialID(0, seq!['t']),
        DatumAtomView::Boolean(false) => DatumTokenView::SpecialID(0, seq!['f']),
        DatumAtomView::Nil => DatumTokenView::SpecialID(0, seq!['n', 'i', 'l']),
    }
}

/// Converting an atom's token back to an atom gives the atom: the
/// atom-to-token half of the round trip.
pub proof fn lemma_atom_token_round_trip(a: DatumAtomView)
    ensures
        spec_atom_from_token(atom_token(a)) == Ok::<DatumAtomView, crate::errors::DatumErrorId>(a),
{
    match a {
        DatumAtomView::Boolean(v) => {
            if v {
                assert(crate::numbers::lower_seq(seq!['t']) =~= seq!['t']);
            } else {
                assert(crate::numbers::lower_seq(seq!['f']) =~= seq!['f']);
                assert(seq!['f'][0] == 'f' && seq!['t'][0] == 't');
            }
        },
        DatumAtomView::Nil => {
            assert(crate::numbers::lower_seq(seq!['n', 'i', 'l']) =~= seq!['n', 'i', 'l']);
        },
        _ => {},
    }
}


/// Escape idempotence: decoding what the writer emits for any well-formed
/// classified character yields exactly that character back, reported at the
/// offset of the first character of its escape, with the decoder returning
/// to its normal state. In particular, every character written as escaped
/// content decodes to that character classified as content.
pub proof fn lemma_decoder_escape_round_trip(dc: DatumChar, base: DatumOffset)
    requires
        dc.wf(),
        base + dc.write_chars().len() <= 0xffff_ffff_ffff_ffff,
    ensures
        ({
            let text = dc.write_chars();
            let inputs = Seq::new(
                text.len(),
                |i: int| ((base + i) as DatumOffset, Some(text[i])),
            );
            let run = pipe_run::<DatumDecoder>(DatumDecoder(DatumDecoderState::Normal), inputs);
            &&& run.error is None
            &&& run.state == DatumDecoder(DatumDecoderState::Normal)
            &&& run.emitted == seq![(base, dc)]
        }),
{
    reveal_with_fuel(pipe_run, 7);
    let text = dc.write_chars();
    let inputs = Seq::new(text.len(), |i: int| ((base + i) as DatumOffset, Some(text[i])));
    let run = pipe_run::<DatumDecoder>(DatumDecoder(DatumDecoderState::Normal), inputs);
    let c = dc.spec_char();
    let n = c as u32;
    if dc.spec_class() == DatumCharClass::Content {
        if n == 10 || n == 13 || n == 9 {
            assert(text.len() == 2);
            assert(inputs.drop_first().drop_first() =~= Seq::empty());
            assert(run.emitted =~= seq![(base, dc)]);
        } else if n < 32 || n == 127 {
            let b = n as u8;
            let h1 = b / 16;
            let h0 = b % 16;
            assert(text =~= seq![
                '\\',
                'x',
                crate::char_classes::spec_hex_digit(h1),
                crate::char_classes::spec_hex_digit(h0),
                ';',
            ]);
            assert(crate::decoder::spec_hex_digit_value(
                crate::char_classes::spec_hex_digit(h1),
            ) == Some(h1 as u32));
            assert(crate::decoder::spec_hex_digit_value(
                crate::char_classes::spec_hex_digit(h0),
            ) == Some(h0 as u32));
            assert(((((0u32 << 4) | ((b / 16) as u32)) << 4) | ((b % 16) as u32)) == b as u32)
                by (bit_vector);
            assert(inputs.drop_first().drop_first().drop_first().drop_first().drop_first()
                =~= Seq::empty());
            assert((n as char) == c);
            assert(run.emitted =~= seq![(base, dc)]);
        } else if classify(c) == Some(DatumCharClass::Content) {
            assert(text.len() == 1);
            assert(inputs.drop_first() =~= Seq::empty());
            assert(run.emitted =~= seq![(base, dc)]);
        } else {
            assert(text.len() == 2);
            assert(c != 'r' && c != 'n' && c != 't' && c != 'x' && c != '\n');
            assert(inputs.drop_first().drop_first() =~= Seq::empty());
            assert(run.emitted =~= seq![(base, dc)]);
        }
    } else {
        assert(classify(c) == Some(dc.spec_class()));
        assert(text.len() == 1);
        assert(c != '\\' && c != '\r');
        assert(inputs.drop_first() =~= Seq::empty());
        assert(run.emitted =~= seq![(base, dc)]);
    }
}


/// The tokens that re-create a value: an atom's token, or a list's contents
/// between list punctuation. Offsets carried inside the tokens play no role
/// in parsing and are zero here.
pub open spec fn value_tokens(v: DatumValueView) -> Seq<DatumTokenView>
    decreases v,
{
    match v {
        DatumValueView::Atom(a) => seq![atom_token(a)],
        DatumValueView::List(items) => seq![DatumTokenView::ListStart(0)] + values_tokens(items)
            + seq![DatumTokenView::ListEnd(0)],
    }
}

/// The tokens that re-create a run of values, in order.
pub open spec fn values_tokens(items: Seq<DatumValueView>) -> Seq<DatumTokenView>
    decreases items,
{
    if items.len() == 0 {
        Seq::empty()
    } else {
        value_tokens(items[0]) + values_tokens(items.drop_first())
    }
}

/// Feeding the tokens of a value to the parser completes exactly that value:
/// with no list open it is emitted, reported at the offset of its first
/// token; inside an open list it is appended to the innermost one. No token
/// of a value can fail.
pub proof fn lemma_parser_consumes_value(
    st: DatumParserStack,
    v: DatumValueView,
    inputs: Seq<(DatumOffset, Option<DatumTokenView>)>,
)
    requires
        inputs.len() == value_tokens(v).len(),
        forall|k: int| 0 <= k < inputs.len() ==> #[trigger] inputs[k].1 == Some(value_tokens(v)[k]),
    ensures
        ({
            let run = pipe_run::<DatumParser>(st, inputs);
            &&& run.error is None
            &&& if st.1.len() == 0 {
                run.state == (inputs[0].0, Seq::<Seq<DatumValueView>>::empty()) && run.emitted
                    == seq![(inputs[0].0, v)]
            } else {
                run.state == (st.0, st.1.drop_last().push(st.1.last().push(v))) && run.emitted
                    =~= Seq::<(DatumOffset, DatumValueView)>::empty()
            }
        }),
    decreases v,
{
    reveal_with_fuel(pipe_run, 3);
    match v {
        DatumValueView::Atom(a) => {
            lemma_atom_token_round_trip(a);
            assert(inputs[0].1 == Some(atom_token(a)));
            assert(inputs.drop_first() =~= Seq::<(DatumOffset, Option<DatumTokenView>)>::empty());
            let first = parser_step(st, inputs[0].0, inputs[0].1);
            if st.1.len() == 0 {
                assert(first.emitted =~= seq![(inputs[0].0, v)]);
                assert(pipe_run::<DatumParser>(st, inputs).emitted =~= seq![(inputs[0].0, v)]);
            } else {
                assert(pipe_run::<DatumParser>(st, inputs).emitted =~= Seq::<
                    (DatumOffset, DatumValueView),
                >::empty());
            }
        },
        DatumValueView::List(items) => {
            let tokens = value_tokens(v);
            let m = values_tokens(items).len();
            assert(tokens.len() == m + 2);
            assert(tokens[0] == DatumTokenView::ListStart(0));
            assert(tokens.last() == DatumTokenView::ListEnd(0));
            let start = if st.1.len() == 0 {
                inputs[0].0
            } else {
                st.0
            };
            // the list start opens a list
            let head = seq![inputs[0]];
            let st1 = (start, st.1.push(Seq::<DatumValueView>::empty()));
            assert(pipe_run::<DatumParser>(st, head).state == st1);
            assert(pipe_run::<DatumParser>(st, head).emitted =~= Seq::<
                (DatumOffset, DatumValueView),
            >::empty());
            // the element tokens fill it
            let mid = inputs.subrange(1, 1 + m as int);
            assert forall|k: int| 0 <= k < mid.len() implies #[trigger] mid[k].1 == Some(
                values_tokens(items)[k],
            ) by {
                assert(inputs[k + 1].1 == Some(tokens[k + 1]));
                assert(tokens[k + 1] == values_tokens(items)[k]);
            }
            lemma_parser_consumes_values(st1, items, mid);
            let st2 = (start, st.1.push(items));
            assert(st1.1.drop_last().push(st1.1.last() + items) =~= st.1.push(items));
            // and the list end closes it, delivering the completed list
            let last = seq![inputs[inputs.len() - 1]];
            assert(inputs[inputs.len() - 1].1 == Some(tokens[inputs.len() - 1]));
            assert(tokens[inputs.len() - 1] == DatumTokenView::ListEnd(0));
            let close = parser_step(st2, inputs[inputs.len() - 1].0, inputs[inputs.len() - 1].1);
            assert(st2.1.drop_last() =~= st.1);
            assert(st2.1.last() == items);
            assert(pipe_run::<DatumParser>(st2, last).state == close.state);
            lemma_pipe_run_concat::<DatumParser>(st, head, mid + last);
            lemma_pipe_run_concat::<DatumParser>(st1, mid, last);
            assert(head + (mid + last) =~= inputs);
            if st.1.len() == 0 {
                assert(pipe_run::<DatumParser>(st, inputs).emitted =~= seq![(inputs[0].0, v)]);
            } else {
                assert(pipe_run::<DatumParser>(st, inputs).emitted =~= Seq::<
                    (DatumOffset, DatumValueView),
                >::empty());
            }
        },
    }
}

/// Feeding the tokens of a run of values into an open list appends exactly
/// those values to it, in order.
pub proof fn lemma_parser_consumes_values(
    st: DatumParserStack,
    items: Seq<DatumValueView>,
    inputs: Seq<(DatumOffset, Option<DatumTokenView>)>,
)
    requires
        st.1.len() > 0,
        inputs.len() == values_tokens(items).len(),
        forall|k: int| 0 <= k < inputs.len() ==> #[trigger] inputs[k].1 == Some(
            values_tokens(items)[k],
        ),
    ensures
        ({
            let run = pipe_run::<DatumParser>(st, inputs);
            &&& run.error is None
            &&& run.emitted =~= Seq::<(DatumOffset, DatumValueView)>::empty()
            &&& run.state == (st.0, st.1.drop_last().push(st.1.last() + items))
        }),
    decreases items,
{
    reveal_with_fuel(pipe_run, 2);
    if items.len() == 0 {
        assert(inputs =~= Seq::<(DatumOffset, Option<DatumTokenView>)>::empty());
        assert(st.1.drop_last().push(st.1.last() + items) =~= st.1);
    } else {
        let n1 = value_tokens(items[0]).len() as int;
        let a = inputs.take(n1);
        let b = inputs.skip(n1);
        assert forall|k: int| 0 <= k < a.len() implies #[trigger] a[k].1 == Some(
            value_tokens(items[0])[k],
        ) by {
            assert(inputs[k].1 == Some(values_tokens(items)[k]));
            assert(values_tokens(items)[k] == value_tokens(items[0])[k]);
        }
        lemma_parser_consumes_value(st, items[0], a);
        let st1 = (st.0, st.1.drop_last().push(st.1.last().push(items[0])));
        assert forall|k: int| 0 <= k < b.len() implies #[trigger] b[k].1 == Some(
            values_tokens(items.drop_first())[k],
        ) by {
            assert(inputs[k + n1].1 == Some(values_tokens(items)[k + n1]));
            assert(values_tokens(items)[k + n1] == values_tokens(items.drop_first())[k]);
        }
        lemma_parser_consumes_values(st1, items.drop_first(), b);
        lemma_pipe_run_concat::<DatumParser>(st, a, b);
        assert(a + b =~= inputs);
        assert(st1.1.last() == st.1.last().push(items[0]));
        assert(st1.1.drop_last() =~= st.1.drop_last());
        assert(st.1.last().push(items[0]) + items.drop_first() =~= st.1.last() + items);
        assert(st1.1.drop_last().push(st1.1.last() + items.drop_first()) =~= st.1.drop_last().push(
            st.1.last() + items,
        ));
    }
}

/// Parsing the tokens of a value reproduces the value: feeding its tokens to
/// a fresh parser, then end of input, emits exactly that value, reported at
/// the offset of its first token, with nothing left open. The round trip at
/// the tree level.
pub proof fn lemma_parser_value_round_trip(
    v: DatumValueView,
    inputs: Seq<(DatumOffset, Option<DatumTokenView>)>,
    eof_at: DatumOffset,
)
    requires
        inputs.len() == value_tokens(v).len(),
        forall|k: int| 0 <= k < inputs.len() ==> #[trigger] inputs[k].1 == Some(value_tokens(v)[k]),
    ensures
        ({
            let run = pipe_run::<DatumParser>(
                (0, Seq::<Seq<DatumValueView>>::empty()),
                inputs.push((eof_at, None)),
            );
            &&& run.error is None
            &&& run.emitted == seq![(inputs[0].0, v)]
        }),
{
    let fresh = (0u64, Seq::<Seq<DatumValueView>>::empty());
    lemma_parser_consumes_value(fresh, v, inputs);
    lemma_pipe_run_push::<DatumParser>(fresh, inputs, (eof_at, None));
    assert(pipe_run::<DatumParser>(fresh, inputs.push((eof_at, None))).emitted =~= seq![
        (inputs[0].0, v),
    ]);
}


/// Numeric fidelity for integers at the token level: the text written for an
/// integer token denotes exactly that integer when read back as a number.
pub proof fn lemma_integer_token_fidelity(at: DatumOffset, v: i64)
    ensures
        spec_parse_i64(spec_token_write(DatumTokenView::Integer(at, v))) == Some(v),
{
    lemma_i64_text_round_trip(v);
}

/// The text written for a sequence of classified characters: each one's
/// escape, concatenated.
pub open spec fn chars_write(dcs: Seq<DatumChar>) -> Seq<char>
    decreases dcs.len(),
{
    if dcs.len() == 0 {
        Seq::empty()
    } else {
        chars_write(dcs.drop_last()) + dcs.last().write_chars()
    }
}

/// Escape idempotence over a whole stream: decoding the written escapes of
/// any well-formed classified characters yields exactly those characters, in
/// order, each reported at the offset where its own escape begins, with the
/// decoder back in its normal state.
pub proof fn lemma_decoder_reads_back_stream(dcs: Seq<DatumChar>, base: DatumOffset)
    requires
        forall|k: int| 0 <= k < dcs.len() ==> (#[trigger] dcs[k]).wf(),
        base + chars_write(dcs).len() <= 0xffff_ffff_ffff_ffff,
    ensures
        ({
            let text = chars_write(dcs);
            let inputs = Seq::new(
                text.len(),
                |i: int| ((base + i) as DatumOffset, Some(text[i])),
            );
            let run = pipe_run::<DatumDecoder>(DatumDecoder(DatumDecoderState::Normal), inputs);
            &&& run.error is None
            &&& run.state == DatumDecoder(DatumDecoderState::Normal)
            &&& run.emitted == Seq::new(
                dcs.len(),
                |k: int| (
                    (base + chars_write(dcs.take(k)).len()) as DatumOffset,
                    dcs[k],
                ),
            )
        }),
    decreases dcs.len(),
{
    let text = chars_write(dcs);
    let inputs = Seq::new(text.len(), |i: int| ((base + i) as DatumOffset, Some(text[i])));
    let run = pipe_run::<DatumDecoder>(DatumDecoder(DatumDecoderState::Normal), inputs);
    if dcs.len() == 0 {
        assert(inputs =~= Seq::<(DatumOffset, Option<char>)>::empty());
        assert(run.emitted =~= Seq::new(
            dcs.len(),
            |k: int| ((base + chars_write(dcs.take(k)).len()) as DatumOffset, dcs[k]),
        ));
    } else {
        let prefix = dcs.drop_last();
        let last = dcs.last();
        let ptext = chars_write(prefix);
        let ltext = last.write_chars();
        assert(text == ptext + ltext);
        lemma_chars_write_len_mono(dcs);
        lemma_decoder_reads_back_stream(prefix, base);
        let lbase = (base + ptext.len()) as DatumOffset;
        lemma_decoder_escape_round_trip(last, lbase);
        let pinputs = Seq::new(
            ptext.len(),
            |i: int| ((base + i) as DatumOffset, Some(ptext[i])),
        );
        let linputs = Seq::new(
            ltext.len(),
            |i: int| ((lbase + i) as DatumOffset, Some(ltext[i])),
        );
        assert(inputs =~= pinputs + linputs);
        lemma_pipe_run_concat::<DatumDecoder>(
            DatumDecoder(DatumDecoderState::Normal),
            pinputs,
            linputs,
        );
        assert(dcs.take(dcs.len() - 1) =~= prefix);
        assert forall|k: int| 0 <= k < prefix.len() implies chars_write(prefix.take(k))
            == chars_write(#[trigger] dcs.take(k)) by {
            assert(prefix.take(k) =~= dcs.take(k));
        }
        assert(run.emitted =~= Seq::new(
            dcs.len(),
            |k: int| ((base + chars_write(dcs.take(k)).len()) as DatumOffset, dcs[k]),
        ));
    }
}

/// Written prefixes are no longer than the whole written stream.
proof fn lemma_chars_write_len_mono(dcs: Seq<DatumChar>)
    requires
        dcs.len() > 0,
    ensures
        chars_write(dcs.drop_last()).len() <= chars_write(dcs).len(),
        forall|k: int| 0 <= k <= dcs.len() ==> chars_write(#[trigger] dcs.take(k)).len()
            <= chars_write(dcs).len(),
    decreases dcs.len(),
{
    assert forall|k: int| 0 <= k <= dcs.len() implies chars_write(#[trigger] dcs.take(k)).len()
        <= chars_write(dcs).len() by {
        lemma_chars_write_take_len(dcs, k);
    }
}

/// The written length of a prefix is bounded by the written length of the
/// whole.
proof fn lemma_chars_write_take_len(dcs: Seq<DatumChar>, k: int)
    requires
        0 <= k <= dcs.len(),
    ensures
        chars_write(dcs.take(k)).len() <= chars_write(dcs).len(),
    decreases dcs.len() - k,
{
    if k == dcs.len() {
        assert(dcs.take(k) =~= dcs);
    } else {
        assert(dcs.take(k + 1).drop_last() =~= dcs.take(k));
        assert(chars_write(dcs.take(k)).len() <= chars_write(dcs.take(k + 1)).len());
        lemma_chars_write_take_len(dcs, k + 1);
    }
}


/// A written string body is the written escapes of its payload characters,
/// each classified for string writing.
proof fn lemma_string_body_is_stream(s: Seq<char>)
    ensures
        chars_write(Seq::new(s.len(), |i: int| DatumChar::spec_string_content(s[i])))
            == string_body_chars(s),
    decreases s.len(),
{
    let dcs = Seq::new(s.len(), |i: int| DatumChar::spec_string_content(s[i]));
    if s.len() == 0 {
        assert(dcs =~= Seq::<DatumChar>::empty());
    } else {
        lemma_string_body_is_stream(s.drop_last());
        assert(dcs.drop_last() =~= Seq::new(
            s.drop_last().len(),
            |i: int| DatumChar::spec_string_content(s.drop_last()[i]),
        ));
        assert(dcs.last() == DatumChar::spec_string_content(s.last()));
    }
}

/// A written identifier run is the written escapes of its characters, each
/// classified for identifier writing.
proof fn lemma_potential_id_is_stream(s: Seq<char>)
    ensures
        chars_write(Seq::new(s.len(), |i: int| DatumChar::spec_potential_identifier(s[i])))
            == potential_id_chars(s),
    decreases s.len(),
{
    let dcs = Seq::new(s.len(), |i: int| DatumChar::spec_potential_identifier(s[i]));
    if s.len() == 0 {
        assert(dcs =~= Seq::<DatumChar>::empty());
    } else {
        lemma_potential_id_is_stream(s.drop_last());
        assert(dcs.drop_last() =~= Seq::new(
            s.drop_last().len(),
            |i: int| DatumChar::spec_potential_identifier(s.drop_last()[i]),
        ));
        assert(dcs.last() == DatumChar::spec_potential_identifier(s.last()));
    }
}

/// The classified characters of text whose characters all classify: each
/// with its own class, so each is written as itself.
pub open spec fn raw_classified(s: Seq<char>) -> Seq<DatumChar> {
    Seq::new(s.len(), |i: int| spec_datum_char(s[i], classify(s[i]).unwrap_or(DatumCharClass::Content)))
}

/// Text whose characters all classify is the written form of its own
/// classified characters.
proof fn lemma_raw_text_is_stream(s: Seq<char>)
    requires
        forall|i: int| 0 <= i < s.len() ==> classify(#[trigger] s[i]) is Some,
    ensures
        chars_write(raw_classified(s)) == s,
        forall|i: int| 0 <= i < s.len() ==> (#[trigger] raw_classified(s)[i]).wf(),
    decreases s.len(),
{
    if s.len() == 0 {
        assert(raw_classified(s) =~= Seq::<DatumChar>::empty());
        assert(chars_write(raw_classified(s)) =~= s);
    } else {
        lemma_raw_text_is_stream(s.drop_last());
        assert(raw_classified(s).drop_last() =~= raw_classified(s.drop_last()));
        let last = raw_classified(s).last();
        assert(last == spec_datum_char(s.last(), classify(s.last()).unwrap()));
        assert(last.write_chars() =~= seq![s.last()]);
        assert(chars_write(raw_classified(s)) =~= s);
    }
}


/// Writing distributes over concatenation of classified characters.
proof fn lemma_chars_write_concat(a: Seq<DatumChar>, b: Seq<DatumChar>)
    ensures
        chars_write(a + b) == chars_write(a) + chars_write(b),
    decreases b.len(),
{
    if b.len() == 0 {
        assert(a + b =~= a);
        assert(chars_write(a) + chars_write(b) =~= chars_write(a));
    } else {
        assert((a + b).drop_last() =~= a + b.drop_last());
        assert((a + b).last() == b.last());
        lemma_chars_write_concat(a, b.drop_last());
        assert(chars_write(a) + chars_write(b) =~= chars_write(a) + chars_write(b.drop_last())
            + b.last().write_chars());
    }
}

/// Characters accepted by the number recognizer come from its alphabet:
/// digits, the dot, the exponent letters and the signs — all of which
/// classify.
proof fn lemma_float_number_alphabet(b: Seq<char>)
    requires
        float_dfa_run(b) != 7,
    ensures
        forall|i: int| 0 <= i < b.len() ==> classify(#[trigger] b[i]) is Some,
        forall|i: int| 0 <= i < b.len() ==> (is_dec_digit(#[trigger] b[i]) || b[i] == '.' || b[i]
            == 'e' || b[i] == 'E' || b[i] == '+' || b[i] == '-'),
    decreases b.len(),
{
    if b.len() > 0 {
        assert(float_dfa(float_dfa_run(b.drop_last()), b.last()) != 7);
        assert(float_dfa_run(b.drop_last()) != 7);
        lemma_float_number_alphabet(b.drop_last());
        let c = b.last();
        assert(is_dec_digit(c) || c == '.' || c == 'e' || c == 'E' || c == '+' || c == '-');
        assert(classify(c) is Some);
        assert(forall|i: int| 0 <= i < b.len() - 1 ==> b[i] == b.drop_last()[i]);
    }
}

/// Every character of a lower-cased spelling of a word of ASCII letters is an
/// ASCII letter or a sign, all of which classify.
proof fn lemma_special_spelling_classifies(t: Seq<char>, word: Seq<char>)
    requires
        crate::numbers::lower_seq(sign_body(t)) == word,
        forall|i: int| 0 <= i < word.len() ==> 97 <= (#[trigger] word[i]) as u32 <= 122,
    ensures
        forall|i: int| 0 <= i < t.len() ==> classify(#[trigger] t[i]) is Some,
{
    let body = sign_body(t);
    assert forall|i: int| 0 <= i < t.len() implies classify(#[trigger] t[i]) is Some by {
        if t.len() > 0 && (t[0] == '+' || t[0] == '-') && i == 0 {
        } else {
            let j = if t.len() > 0 && (t[0] == '+' || t[0] == '-') {
                i - 1
            } else {
                i
            };
            assert(body[j] == t[i]);
            assert(crate::numbers::lower_seq(body)[j] == word[j]);
            assert(crate::numbers::spec_ascii_lower(body[j]) == word[j]);
        }
    }
}

/// Every character the writer emits for a floating-point token classifies.
proof fn lemma_float_write_classifies(t: Seq<char>)
    requires
        float_token_text_wf(t),
    ensures
        forall|i: int| 0 <= i < float_write_chars(t).len() ==> classify(
            #[trigger] float_write_chars(t)[i],
        ) is Some,
{
    let written = float_write_chars(t);
    if float_text_is_nan(t) || float_text_is_inf(t) {
        assert(forall|i: int| 0 <= i < written.len() ==> classify(#[trigger] written[i]) is Some);
    } else {
        assert(float_text_is_number(t));
        lemma_float_number_alphabet(sign_body(t));
        assert forall|i: int| 0 <= i < t.len() implies classify(#[trigger] t[i]) is Some by {
            if t.len() > 0 && (t[0] == '+' || t[0] == '-') && i == 0 {
            } else if t.len() > 0 && (t[0] == '+' || t[0] == '-') {
                assert(sign_body(t)[i - 1] == t[i]);
            } else {
                assert(sign_body(t)[i] == t[i]);
            }
        }
        if !crate::numbers::has_float_indicator(t) {
            assert(written =~= t + seq!['.', '0']);
            assert(forall|i: int|
                0 <= i < written.len() ==> classify(#[trigger] written[i]) is Some);
        }
    }
}

/// The classified characters whose escapes the writer emits for a token.
pub open spec fn token_classified(t: DatumTokenView) -> Seq<DatumChar> {
    match t {
        DatumTokenView::String(_, b) => seq![spec_datum_char('"', DatumCharClass::String)]
            + Seq::new(b.len(), |i: int| DatumChar::spec_string_content(b[i])) + seq![
            spec_datum_char('"', DatumCharClass::String),
        ],
        DatumTokenView::Symbol(_, b) => if b.len() == 0 {
            seq![
                spec_datum_char('#', DatumCharClass::SpecialID),
                spec_datum_char('{', DatumCharClass::Content),
                spec_datum_char('}', DatumCharClass::Content),
                spec_datum_char('#', DatumCharClass::SpecialID),
            ]
        } else if classify(b[0]) == Some(DatumCharClass::Sign) {
            if b.len() == 1 {
                seq![spec_datum_char(b[0], DatumCharClass::Sign)]
            } else {
                seq![
                    spec_datum_char(b[0], DatumCharClass::Content),
                    spec_datum_char(b[1], DatumCharClass::Content),
                ] + Seq::new(
                    (b.len() - 2) as nat,
                    |i: int| DatumChar::spec_potential_identifier(b.skip(2)[i]),
                )
            }
        } else {
            seq![spec_datum_char(b[0], DatumCharClass::Content)] + Seq::new(
                (b.len() - 1) as nat,
                |i: int| DatumChar::spec_potential_identifier(b.skip(1)[i]),
            )
        },
        DatumTokenView::SpecialID(_, b) => seq![spec_datum_char('#', DatumCharClass::SpecialID)]
            + Seq::new(b.len(), |i: int| DatumChar::spec_potential_identifier(b[i])),
        DatumTokenView::Integer(_, v) => raw_classified(spec_i64_text(v)),
        DatumTokenView::Float(_, t) => raw_classified(float_write_chars(t)),
        DatumTokenView::ListStart(_) => seq![spec_datum_char('(', DatumCharClass::ListStart)],
        DatumTokenView::ListEnd(_) => seq![spec_datum_char(')', DatumCharClass::ListEnd)],
    }
}

/// What the writer emits for a token is the written escapes of its
/// classified characters, each of them well-formed: the writer speaks the
/// decoder's language.
pub proof fn lemma_token_write_is_stream(t: DatumTokenView)
    requires
        t.wf(),
    ensures
        chars_write(token_classified(t)) == spec_token_write(t),
        forall|i: int| 0 <= i < token_classified(t).len() ==> (#[trigger] token_classified(
            t,
        )[i]).wf(),
{
    reveal_with_fuel(chars_write, 6);
    match t {
        DatumTokenView::String(_, b) => {
            let dq = seq![spec_datum_char('"', DatumCharClass::String)];
            let body = Seq::new(b.len(), |i: int| DatumChar::spec_string_content(b[i]));
            lemma_string_body_is_stream(b);
            lemma_chars_write_concat(dq + body, dq);
            lemma_chars_write_concat(dq, body);
            assert(chars_write(dq) =~= seq!['"']);
            assert(chars_write(token_classified(t)) =~= spec_token_write(t));
        },
        DatumTokenView::Symbol(_, b) => {
            if b.len() == 0 {
                assert(chars_write(token_classified(t)) =~= symbol_write_chars(b));
            } else if classify(b[0]) == Some(DatumCharClass::Sign) {
                if b.len() == 1 {
                    assert(chars_write(token_classified(t)) =~= symbol_write_chars(b));
                } else {
                    let head = seq![
                        spec_datum_char(b[0], DatumCharClass::Content),
                        spec_datum_char(b[1], DatumCharClass::Content),
                    ];
                    let rest = Seq::new(
                        (b.len() - 2) as nat,
                        |i: int| DatumChar::spec_potential_identifier(b.skip(2)[i]),
                    );
                    lemma_potential_id_is_stream(b.skip(2));
                    assert(rest =~= Seq::new(
                        b.skip(2).len(),
                        |i: int| DatumChar::spec_potential_identifier(b.skip(2)[i]),
                    ));
                    lemma_chars_write_concat(head, rest);
                    assert(chars_write(head) =~= spec_datum_char(
                        b[0],
                        DatumCharClass::Content,
                    ).write_chars() + spec_datum_char(b[1], DatumCharClass::Content).write_chars());
                    assert(chars_write(token_classified(t)) =~= symbol_write_chars(b));
                }
            } else {
                let head = seq![spec_datum_char(b[0], DatumCharClass::Content)];
                let rest = Seq::new(
                    (b.len() - 1) as nat,
                    |i: int| DatumChar::spec_potential_identifier(b.skip(1)[i]),
                );
                lemma_potential_id_is_stream(b.skip(1));
                assert(rest =~= Seq::new(
                    b.skip(1).len(),
                    |i: int| DatumChar::spec_potential_identifier(b.skip(1)[i]),
                ));
                lemma_chars_write_concat(head, rest);
                assert(chars_write(head) =~= spec_datum_char(
                    b[0],
                    DatumCharClass::Content,
                ).write_chars());
                assert(chars_write(token_classified(t)) =~= symbol_write_chars(b));
            }
        },
        DatumTokenView::SpecialID(_, b) => {
            let head = seq![spec_datum_char('#', DatumCharClass::SpecialID)];
            let rest = Seq::new(b.len(), |i: int| DatumChar::spec_potential_identifier(b[i]));
            lemma_potential_id_is_stream(b);
            lemma_chars_write_concat(head, rest);
            assert(chars_write(head) =~= seq!['#']);
            assert(chars_write(token_classified(t)) =~= spec_token_write(t));
        },
        DatumTokenView::Integer(_, v) => {
            if v < 0 {
                lemma_dec_digits_denote((-(v as int)) as nat);
            } else {
                lemma_dec_digits_denote(v as nat);
            }
            let text = spec_i64_text(v);
            assert forall|i: int| 0 <= i < text.len() implies classify(
                #[trigger] text[i],
            ) is Some by {
                if v < 0 {
                    if i > 0 {
                        assert(text[i] == dec_digits((-(v as int)) as nat)[i - 1]);
                        assert(is_dec_digit(text[i]));
                    }
                } else {
                    assert(is_dec_digit(text[i]));
                }
            }
            lemma_raw_text_is_stream(text);
        },
        DatumTokenView::Float(_, tx) => {
            lemma_float_write_classifies(tx);
            lemma_raw_text_is_stream(float_write_chars(tx));
        },
        DatumTokenView::ListStart(_) => {
            assert(chars_write(token_classified(t)) =~= seq!['(']);
        },
        DatumTokenView::ListEnd(_) => {
            assert(chars_write(token_classified(t)) =~= seq![')']);
        },
    }
}


/// The raw characters a run of classified characters carries.
pub open spec fn raw_chars(dcs: Seq<DatumChar>) -> Seq<char> {
    Seq::new(dcs.len(), |i: int| dcs[i].spec_char())
}

/// Inside a string, the tokenizer pushes every character that is not a
/// closing quote into the buffer, and stays inside the string.
proof fn lemma_tokenizer_fills_string(
    buf: Seq<char>,
    start: DatumOffset,
    body: Seq<DatumChar>,
    inputs: Seq<(DatumOffset, Option<DatumChar>)>,
)
    requires
        inputs.len() == body.len(),
        forall|k: int| 0 <= k < inputs.len() ==> #[trigger] inputs[k].1 == Some(body[k]),
        forall|k: int| 0 <= k < body.len() ==> (#[trigger] body[k]).spec_class()
            != DatumCharClass::String,
    ensures
        ({
            let run = pipe_run::<DatumPipeTokenizer>(
                (buf, DatumTokenizer(DatumTokenizerState::String(start))),
                inputs,
            );
            &&& run.error is None
            &&& run.emitted =~= Seq::<(DatumOffset, DatumTokenView)>::empty()
            &&& run.state == (
                buf + raw_chars(body),
                DatumTokenizer(DatumTokenizerState::String(start)),
            )
        }),
    decreases body.len(),
{
    reveal_with_fuel(pipe_run, 2);
    reveal_with_fuel(apply_actions, 3);
    if body.len() == 0 {
        assert(buf + raw_chars(body) =~= buf);
    } else {
        let dc = body[0];
        let pre = (buf, DatumTokenizer(DatumTokenizerState::String(start)));
        let step = DatumPipeTokenizer::pipe_step(pre, inputs[0].0, Some(dc));
        let acts = tokenizer_step(pre.1, inputs[0].0, Some(dc)).emitted;
        assert(acts.drop_last() =~= Seq::<
            (DatumOffset, crate::token_core::DatumTokenizerAction),
        >::empty());
        assert(step.state == (buf.push(dc.spec_char()), pre.1));
        assert(step.emitted =~= Seq::<(DatumOffset, DatumTokenView)>::empty());
        lemma_tokenizer_fills_string(
            buf.push(dc.spec_char()),
            start,
            body.drop_first(),
            inputs.drop_first(),
        );
        assert(raw_chars(body.drop_first()) =~= raw_chars(body).drop_first());
        assert(buf.push(dc.spec_char()) + raw_chars(body).drop_first() =~= buf + raw_chars(body));
        assert(pipe_run::<DatumPipeTokenizer>(pre, inputs).emitted =~= Seq::<
            (DatumOffset, DatumTokenView),
        >::empty());
    }
}

/// Accumulating an identifier-like token, the tokenizer pushes every
/// identifier character into the buffer; after the first, the pending type
/// is the expanded one.
proof fn lemma_tokenizer_fills_ident(
    buf: Seq<char>,
    start: DatumOffset,
    immediate: DatumTokenType,
    expanded: DatumTokenType,
    body: Seq<DatumChar>,
    inputs: Seq<(DatumOffset, Option<DatumChar>)>,
)
    requires
        inputs.len() == body.len(),
        forall|k: int| 0 <= k < inputs.len() ==> #[trigger] inputs[k].1 == Some(body[k]),
        forall|k: int| 0 <= k < body.len() ==> (#[trigger] body[k]).spec_class().spec_potential_identifier(),
    ensures
        ({
            let run = pipe_run::<DatumPipeTokenizer>(
                (
                    buf,
                    DatumTokenizer(
                        DatumTokenizerState::PotentialIdentifier(start, immediate, expanded),
                    ),
                ),
                inputs,
            );
            &&& run.error is None
            &&& run.emitted =~= Seq::<(DatumOffset, DatumTokenView)>::empty()
            &&& run.state == (
                buf + raw_chars(body),
                DatumTokenizer(
                    DatumTokenizerState::PotentialIdentifier(
                        start,
                        if body.len() == 0 {
                            immediate
                        } else {
                            expanded
                        },
                        expanded,
                    ),
                ),
            )
        }),
    decreases body.len(),
{
    reveal_with_fuel(pipe_run, 2);
    reveal_with_fuel(apply_actions, 3);
    if body.len() == 0 {
        assert(buf + raw_chars(body) =~= buf);
    } else {
        let dc = body[0];
        let pre = (
            buf,
            DatumTokenizer(DatumTokenizerState::PotentialIdentifier(start, immediate, expanded)),
        );
        let step = DatumPipeTokenizer::pipe_step(pre, inputs[0].0, Some(dc));
        let acts = tokenizer_step(pre.1, inputs[0].0, Some(dc)).emitted;
        assert(acts.drop_last() =~= Seq::<
            (DatumOffset, crate::token_core::DatumTokenizerAction),
        >::empty());
        assert(step.state == (
            buf.push(dc.spec_char()),
            DatumTokenizer(DatumTokenizerState::PotentialIdentifier(start, expanded, expanded)),
        ));
        assert(step.emitted =~= Seq::<(DatumOffset, DatumTokenView)>::empty());
        lemma_tokenizer_fills_ident(
            buf.push(dc.spec_char()),
            start,
            expanded,
            expanded,
            body.drop_first(),
            inputs.drop_first(),
        );
        assert(raw_chars(body.drop_first()) =~= raw_chars(body).drop_first());
        assert(buf.push(dc.spec_char()) + raw_chars(body).drop_first() =~= buf + raw_chars(body));
        assert(pipe_run::<DatumPipeTokenizer>(pre, inputs).emitted =~= Seq::<
            (DatumOffset, DatumTokenView),
        >::empty());
    }
}


/// Text with a floating-point mark in it never reads as an integer.
proof fn lemma_indicator_blocks_integer(s: Seq<char>)
    requires
        has_float_indicator(s),
    ensures
        spec_parse_i64(s) is None,
{
    let k = choose|k: int| 0 <= k < s.len() && (s[k] == '.' || s[k] == 'e' || s[k] == 'E');
    let signed = s.len() > 0 && (s[0] == '+' || s[0] == '-');
    let ds = if signed {
        s.skip(1)
    } else {
        s
    };
    if signed {
        assert(k > 0);
        assert(ds[k - 1] == s[k]);
        assert(!is_dec_digit(ds[k - 1]));
    } else {
        assert(!is_dec_digit(ds[k]));
    }
    assert(!all_dec_digits(ds));
}

/// Without a floating-point mark, the number recognizer can only be at its
/// start, in integer digits, or rejected.
proof fn lemma_dfa_without_indicator(b: Seq<char>)
    requires
        !has_float_indicator(b),
    ensures
        float_dfa_run(b) == 0 || float_dfa_run(b) == 1 || float_dfa_run(b) == 7,
    decreases b.len(),
{
    if b.len() > 0 {
        assert(!has_float_indicator(b.drop_last())) by {
            assert(forall|i: int|
                0 <= i < b.len() - 1 ==> b.drop_last()[i] == b[i]);
        }
        lemma_dfa_without_indicator(b.drop_last());
        assert(b.last() != '.' && b.last() != 'e' && b.last() != 'E');
    }
}

/// The text the writer emits for a finite floating-point token reads back as
/// floating-point text: it never parses as an integer, and it satisfies the
/// floating-point token invariant.
proof fn lemma_float_written_resolves(tx: Seq<char>)
    requires
        float_token_text_wf(tx),
        !float_text_is_nan(tx),
        !float_text_is_inf(tx),
    ensures
        spec_parse_i64(float_write_chars(tx)) is None,
        float_token_text_wf(float_write_chars(tx)),
        has_float_indicator(float_write_chars(tx)),
        float_text_is_number(float_write_chars(tx)),
{
    let written = float_write_chars(tx);
    if has_float_indicator(tx) {
        lemma_indicator_blocks_integer(tx);
    } else {
        assert(written == tx + seq!['.', '0']);
        assert(written[written.len() - 2] == '.');
        assert(has_float_indicator(written));
        lemma_indicator_blocks_integer(written);
        // the body of the text is all integer digits, so appending `.0`
        // moves the recognizer from integer digits to fraction digits
        let body = sign_body(tx);
        assert(!has_float_indicator(body)) by {
            if tx.len() > 0 && (tx[0] == '+' || tx[0] == '-') {
                assert(forall|i: int| 0 <= i < body.len() ==> body[i] == tx[i + 1]);
            }
        }
        lemma_dfa_without_indicator(body);
        assert(float_dfa_run(body) == 1);
        let wbody = sign_body(written);
        reveal_with_fuel(float_dfa_run, 3);
        assert(wbody =~= body + seq!['.', '0']);
        assert(wbody.last() == '0');
        assert(wbody.drop_last() =~= body.push('.'));
        assert(wbody.drop_last().last() == '.');
        assert(wbody.drop_last().drop_last() =~= body);
        assert(float_dfa_run(wbody.drop_last()) == float_dfa(float_dfa_run(body), '.'));
        assert(float_dfa_run(wbody) == 3);
        assert(written[0] == tx[0]);
        assert(crate::numbers::float_text_is_number(written));
    }
}

/// The token read back from a written token: the same token, except that the
/// empty symbol and the special floating-point values come back as the
/// special IDs they are written as, and finite floating-point text gains its
/// `.0` mark when it had none. The carried offset is where reading completed
/// the token.
pub open spec fn token_read_back(t: DatumTokenView, tok_at: DatumOffset) -> DatumTokenView {
    match t {
        DatumTokenView::String(_, b) => DatumTokenView::String(tok_at, b),
        DatumTokenView::Symbol(_, b) => if b.len() == 0 {
            DatumTokenView::SpecialID(tok_at, seq!['{', '}', '#'])
        } else {
            DatumTokenView::Symbol(tok_at, b)
        },
        DatumTokenView::SpecialID(_, b) => DatumTokenView::SpecialID(tok_at, b),
        DatumTokenView::Integer(_, v) => DatumTokenView::Integer(tok_at, v),
        DatumTokenView::Float(_, tx) => if float_text_is_nan(tx) {
            DatumTokenView::SpecialID(tok_at, seq!['i', '+', 'n', 'a', 'n', '.', '0'])
        } else if float_text_is_inf(tx) {
            if float_text_negative(tx) {
                DatumTokenView::SpecialID(tok_at, seq!['i', '-', 'i', 'n', 'f', '.', '0'])
            } else {
                DatumTokenView::SpecialID(tok_at, seq!['i', '+', 'i', 'n', 'f', '.', '0'])
            }
        } else {
            DatumTokenView::Float(tok_at, float_write_chars(tx))
        },
        DatumTokenView::ListStart(_) => DatumTokenView::ListStart(tok_at),
        DatumTokenView::ListEnd(_) => DatumTokenView::ListEnd(tok_at),
    }
}


/// Tokenizing the written escapes of a well-formed token, then end of input,
/// yields exactly the token read back (see [`token_read_back`]), reported at
/// the offset of its first character, with the tokenizer back between tokens
/// and its buffer empty.
pub proof fn lemma_tokenizer_reads_back_token(
    t: DatumTokenView,
    inputs: Seq<(DatumOffset, Option<DatumChar>)>,
    eof_at: DatumOffset,
)
    requires
        t.wf(),
        inputs.len() == token_classified(t).len(),
        forall|k: int| 0 <= k < inputs.len() ==> #[trigger] inputs[k].1 == Some(
            token_classified(t)[k],
        ),
    ensures
        ({
            let fresh = (Seq::<char>::empty(), DatumTokenizer(DatumTokenizerState::Start));
            let run = pipe_run::<DatumPipeTokenizer>(fresh, inputs.push((eof_at, None)));
            let done_at = match t {
                DatumTokenView::ListStart(_) => inputs[0].0,
                DatumTokenView::ListEnd(_) => inputs[0].0,
                DatumTokenView::String(..) => inputs[inputs.len() - 1].0,
                _ => eof_at,
            };
            &&& run.error is None
            &&& run.state == fresh
            &&& run.emitted == seq![(inputs[0].0, token_read_back(t, done_at))]
        }),
{
    reveal_with_fuel(pipe_run, 3);
    reveal_with_fuel(apply_actions, 3);
    let fresh = (Seq::<char>::empty(), DatumTokenizer(DatumTokenizerState::Start));
    let dcs = token_classified(t);
    let whole = inputs.push((eof_at, None));
    let at0 = inputs[0].0;
    match t {
        DatumTokenView::ListStart(_) | DatumTokenView::ListEnd(_) => {
            assert(whole.drop_first().drop_first() =~= Seq::<
                (DatumOffset, Option<DatumChar>),
            >::empty());
            assert(whole[0] == inputs[0]);
            assert(whole[1] == (eof_at, None::<DatumChar>));
            assert(pipe_run::<DatumPipeTokenizer>(fresh, whole).emitted =~= seq![
                (at0, token_read_back(t, at0)),
            ]);
        },
        DatumTokenView::String(..) => {
            lemma_tokenizer_reads_back_string(t, inputs, eof_at);
        },
        _ => {
            lemma_tokenizer_reads_back_ident(t, inputs, eof_at);
        },
    }
}

/// The string case of [`lemma_tokenizer_reads_back_token`].
#[verifier::rlimit(100)]
proof fn lemma_tokenizer_reads_back_string(
    t: DatumTokenView,
    inputs: Seq<(DatumOffset, Option<DatumChar>)>,
    eof_at: DatumOffset,
)
    requires
        t.wf(),
        t is String,
        inputs.len() == token_classified(t).len(),
        forall|k: int| 0 <= k < inputs.len() ==> #[trigger] inputs[k].1 == Some(
            token_classified(t)[k],
        ),
    ensures
        ({
            let fresh = (Seq::<char>::empty(), DatumTokenizer(DatumTokenizerState::Start));
            let run = pipe_run::<DatumPipeTokenizer>(fresh, inputs.push((eof_at, None)));
            &&& run.error is None
            &&& run.state == fresh
            &&& run.emitted == seq![
                (inputs[0].0, token_read_back(t, inputs[inputs.len() - 1].0)),
            ]
        }),
{
    reveal_with_fuel(pipe_run, 3);
    reveal_with_fuel(apply_actions, 3);
    let fresh = (Seq::<char>::empty(), DatumTokenizer(DatumTokenizerState::Start));
    let dcs = token_classified(t);
    let whole = inputs.push((eof_at, None));
    let at0 = inputs[0].0;
    match t {
        DatumTokenView::String(_, b) => {
            let body = Seq::new(b.len(), |i: int| DatumChar::spec_string_content(b[i]));
            let quote = spec_datum_char('"', DatumCharClass::String);
            assert(dcs[0] == quote);
            assert(dcs.last() == quote);
            // the opening quote enters the string state
            let head = seq![whole[0]];
            let st1 = (Seq::<char>::empty(), DatumTokenizer(DatumTokenizerState::String(at0)));
            assert(pipe_run::<DatumPipeTokenizer>(fresh, head).state == st1);
            assert(pipe_run::<DatumPipeTokenizer>(fresh, head).emitted =~= Seq::<
                (DatumOffset, DatumTokenView),
            >::empty());
            // the body accumulates in the buffer
            let mid = whole.subrange(1, 1 + b.len() as int);
            assert forall|k: int| 0 <= k < mid.len() implies #[trigger] mid[k].1 == Some(
                body[k],
            ) by {
                assert(whole[k + 1].1 == Some(dcs[k + 1]));
                assert(dcs[k + 1] == body[k]);
            }
            assert forall|k: int| 0 <= k < body.len() implies (#[trigger] body[k]).spec_class()
                != DatumCharClass::String by {
                assert(body[k] == DatumChar::spec_string_content(b[k]));
            }
            lemma_tokenizer_fills_string(Seq::empty(), at0, body, mid);
            let st2 = (raw_chars(body), DatumTokenizer(DatumTokenizerState::String(at0)));
            assert(Seq::<char>::empty() + raw_chars(body) =~= raw_chars(body));
            // the closing quote takes the string token
            let quote_at = inputs[inputs.len() - 1].0;
            let close = seq![whole[whole.len() - 2]];
            assert(whole[whole.len() - 2] == (quote_at, Some(quote)));
            assert(raw_chars(body) =~= b);
            assert(pipe_run::<DatumPipeTokenizer>(st2, close).state == fresh);
            assert(pipe_run::<DatumPipeTokenizer>(st2, close).emitted =~= seq![
                (at0, DatumTokenView::String(quote_at, b)),
            ]);
            // and end of input finds the tokenizer between tokens
            let tail = seq![whole[whole.len() - 1]];
            assert(whole[whole.len() - 1] == (eof_at, None::<DatumChar>));
            assert(pipe_run::<DatumPipeTokenizer>(fresh, tail).state == fresh);
            lemma_pipe_run_concat::<DatumPipeTokenizer>(fresh, head, mid + (close + tail));
            lemma_pipe_run_concat::<DatumPipeTokenizer>(st1, mid, close + tail);
            lemma_pipe_run_concat::<DatumPipeTokenizer>(st2, close, tail);
            assert(head + (mid + (close + tail)) =~= whole);
            assert(pipe_run::<DatumPipeTokenizer>(fresh, whole).emitted =~= seq![
                (at0, token_read_back(t, quote_at)),
            ]);
        },
        _ => {},
    }
}

/// The buffered text after an identifier-like token's characters: the first
/// character unless it was the special-ID mark, then the rest.
pub open spec fn ident_text(dcs: Seq<DatumChar>) -> Seq<char> {
    if dcs[0].spec_class() == DatumCharClass::SpecialID {
        raw_chars(dcs.drop_first())
    } else {
        seq![dcs[0].spec_char()] + raw_chars(dcs.drop_first())
    }
}

/// The pending token type once an identifier-like token's characters are
/// consumed: the first character fixes the immediate and expanded types, and
/// any further character moves to the expanded one.
pub open spec fn ident_final_type(dcs: Seq<DatumChar>) -> DatumTokenType {
    let imm0 = match dcs[0].spec_class() {
        DatumCharClass::SpecialID => DatumTokenType::SpecialID,
        DatumCharClass::Sign => DatumTokenType::ID,
        DatumCharClass::Digit => DatumTokenType::Numeric,
        _ => DatumTokenType::ID,
    };
    let exp0 = match dcs[0].spec_class() {
        DatumCharClass::SpecialID => DatumTokenType::SpecialID,
        DatumCharClass::Sign => DatumTokenType::Numeric,
        DatumCharClass::Digit => DatumTokenType::Numeric,
        _ => DatumTokenType::ID,
    };
    if dcs.len() == 1 {
        imm0
    } else {
        exp0
    }
}

/// The flow of any identifier-like token through the tokenizer: its first
/// character opens the pending token, the rest accumulate, and end of input
/// closes it with whatever token its text resolves to.
#[verifier::rlimit(100)]
proof fn lemma_tokenizer_ident_flow(
    dcs: Seq<DatumChar>,
    inputs: Seq<(DatumOffset, Option<DatumChar>)>,
    eof_at: DatumOffset,
    tok: DatumTokenView,
)
    requires
        dcs.len() >= 1,
        inputs.len() == dcs.len(),
        forall|k: int| 0 <= k < inputs.len() ==> #[trigger] inputs[k].1 == Some(dcs[k]),
        forall|k: int| 0 <= k < dcs.len() ==> (#[trigger] dcs[k]).spec_class().spec_potential_identifier(),
        spec_token_from_parts(ident_final_type(dcs), eof_at, ident_text(dcs)) == Ok::<
            DatumTokenView,
            crate::errors::DatumErrorId,
        >(tok),
    ensures
        ({
            let fresh = (Seq::<char>::empty(), DatumTokenizer(DatumTokenizerState::Start));
            let run = pipe_run::<DatumPipeTokenizer>(fresh, inputs.push((eof_at, None)));
            &&& run.error is None
            &&& run.state == fresh
            &&& run.emitted == seq![(inputs[0].0, tok)]
        }),
{
    reveal_with_fuel(pipe_run, 3);
    reveal_with_fuel(apply_actions, 3);
    let fresh = (Seq::<char>::empty(), DatumTokenizer(DatumTokenizerState::Start));
    let whole = inputs.push((eof_at, None));
    let at0 = inputs[0].0;
    let head = seq![whole[0]];
    let first = dcs[0];
    let body = dcs.drop_first();
    assert(whole[0] == (at0, Some(first)));
    let pushed: Seq<char> = if first.spec_class() == DatumCharClass::SpecialID {
        Seq::empty()
    } else {
        seq![first.spec_char()]
    };
    let imm0: DatumTokenType = match first.spec_class() {
        DatumCharClass::SpecialID => DatumTokenType::SpecialID,
        DatumCharClass::Sign => DatumTokenType::ID,
        DatumCharClass::Digit => DatumTokenType::Numeric,
        _ => DatumTokenType::ID,
    };
    let exp0: DatumTokenType = match first.spec_class() {
        DatumCharClass::SpecialID => DatumTokenType::SpecialID,
        DatumCharClass::Sign => DatumTokenType::Numeric,
        DatumCharClass::Digit => DatumTokenType::Numeric,
        _ => DatumTokenType::ID,
    };
    let st1 = (pushed, DatumTokenizer(DatumTokenizerState::PotentialIdentifier(at0, imm0, exp0)));
    assert(pipe_run::<DatumPipeTokenizer>(fresh, head).state == st1);
    assert(pipe_run::<DatumPipeTokenizer>(fresh, head).error is None);
    assert(pipe_run::<DatumPipeTokenizer>(fresh, head).emitted =~= Seq::<
        (DatumOffset, DatumTokenView),
    >::empty());
    let mid = whole.subrange(1, dcs.len() as int);
    assert forall|k: int| 0 <= k < mid.len() implies #[trigger] mid[k].1 == Some(body[k]) by {
        assert(whole[k + 1].1 == Some(dcs[k + 1]));
    }
    lemma_tokenizer_fills_ident(pushed, at0, imm0, exp0, body, mid);
    let text = pushed + raw_chars(body);
    assert(text == ident_text(dcs));
    let imm_final = if body.len() == 0 {
        imm0
    } else {
        exp0
    };
    assert(imm_final == ident_final_type(dcs));
    let st2 = (
        text,
        DatumTokenizer(DatumTokenizerState::PotentialIdentifier(at0, imm_final, exp0)),
    );
    let tail = seq![whole[whole.len() - 1]];
    assert(whole[whole.len() - 1] == (eof_at, None::<DatumChar>));
    assert(pipe_run::<DatumPipeTokenizer>(st2, tail).state == fresh);
    assert(pipe_run::<DatumPipeTokenizer>(st2, tail).emitted =~= seq![(at0, tok)]);
    lemma_pipe_run_concat::<DatumPipeTokenizer>(fresh, head, mid + tail);
    lemma_pipe_run_concat::<DatumPipeTokenizer>(st1, mid, tail);
    assert(head + (mid + tail) =~= whole);
    assert(pipe_run::<DatumPipeTokenizer>(fresh, whole).emitted =~= seq![(at0, tok)]);
}

/// The identifier-like case of [`lemma_tokenizer_reads_back_token`]: the
/// buffered text of each such token resolves to the token read back.
#[verifier::rlimit(100)]
proof fn lemma_tokenizer_reads_back_ident(
    t: DatumTokenView,
    inputs: Seq<(DatumOffset, Option<DatumChar>)>,
    eof_at: DatumOffset,
)
    requires
        t.wf(),
        !(t is String),
        !(t is ListStart),
        !(t is ListEnd),
        inputs.len() == token_classified(t).len(),
        forall|k: int| 0 <= k < inputs.len() ==> #[trigger] inputs[k].1 == Some(
            token_classified(t)[k],
        ),
    ensures
        ({
            let fresh = (Seq::<char>::empty(), DatumTokenizer(DatumTokenizerState::Start));
            let run = pipe_run::<DatumPipeTokenizer>(fresh, inputs.push((eof_at, None)));
            &&& run.error is None
            &&& run.state == fresh
            &&& run.emitted == seq![(inputs[0].0, token_read_back(t, eof_at))]
        }),
{
    let dcs = token_classified(t);
    lemma_first_char_shape(t);
    lemma_token_body_potential(t);
    assert(dcs[0].spec_class().spec_potential_identifier());
    let text = ident_text(dcs);
    let tt = ident_final_type(dcs);
    match t {
        DatumTokenView::Symbol(_, b) => {
            if b.len() == 0 {
                assert(dcs[0].spec_class() == DatumCharClass::SpecialID);
                assert(text =~= seq!['{', '}', '#']);
                assert(tt == DatumTokenType::SpecialID);
            } else if classify(b[0]) == Some(DatumCharClass::Sign) && b.len() == 1 {
                assert(dcs[0].spec_class() == DatumCharClass::Sign);
                assert(dcs.len() == 1);
                assert(text =~= b);
                assert(tt == DatumTokenType::ID);
            } else {
                assert(dcs[0].spec_class() == DatumCharClass::Content);
                assert(text =~= b);
                assert(tt == DatumTokenType::ID);
            }
        },
        DatumTokenView::SpecialID(_, b) => {
            assert(dcs[0].spec_class() == DatumCharClass::SpecialID);
            assert(text =~= b);
            assert(tt == DatumTokenType::SpecialID);
        },
        DatumTokenView::Integer(_, v) => {
            lemma_i64_text_round_trip(v);
            if v < 0 {
                lemma_dec_digits_denote((-(v as int)) as nat);
                assert(spec_i64_text(v)[0] == '-');
                assert(dcs[0].spec_class() == DatumCharClass::Sign);
                assert(dcs.len() >= 2);
            } else {
                lemma_dec_digits_denote(v as nat);
                assert(is_dec_digit(spec_i64_text(v)[0]));
                assert(dcs[0].spec_class() == DatumCharClass::Digit);
            }
            assert(text =~= spec_i64_text(v));
            assert(tt == DatumTokenType::Numeric);
        },
        DatumTokenView::Float(_, tx) => {
            let written = float_write_chars(tx);
            if float_text_is_nan(tx) {
                assert(written[0] == '#');
                assert(dcs[0].spec_class() == DatumCharClass::SpecialID);
                assert(tt == DatumTokenType::SpecialID);
                assert(text =~= seq!['i', '+', 'n', 'a', 'n', '.', '0']);
            } else if float_text_is_inf(tx) {
                assert(written[0] == '#');
                assert(dcs[0].spec_class() == DatumCharClass::SpecialID);
                assert(tt == DatumTokenType::SpecialID);
                if float_text_negative(tx) {
                    assert(text =~= seq!['i', '-', 'i', 'n', 'f', '.', '0']);
                } else {
                    assert(text =~= seq!['i', '+', 'i', 'n', 'f', '.', '0']);
                }
            } else {
                assert(text =~= written);
                lemma_float_written_resolves(tx);
                assert(written[0] == tx[0]);
                if is_dec_digit(tx[0]) {
                    assert(dcs[0].spec_class() == DatumCharClass::Digit);
                } else {
                    assert(tx[0] == '-');
                    assert(dcs[0].spec_class() == DatumCharClass::Sign);
                    reveal_with_fuel(crate::numbers::float_dfa_run, 1);
                    assert(float_text_is_number(tx));
                    assert(sign_body(tx).len() > 0);
                    assert(written.len() >= 2);
                    assert(dcs.len() >= 2);
                }
                assert(tt == DatumTokenType::Numeric);
            }
        },
        _ => {},
    }
    assert(spec_token_from_parts(tt, eof_at, text) == Ok::<
        DatumTokenView,
        crate::errors::DatumErrorId,
    >(token_read_back(t, eof_at)));
    lemma_tokenizer_ident_flow(dcs, inputs, eof_at, token_read_back(t, eof_at));
}

/// The first classified character of an identifier-like token: a special-ID
/// mark for special IDs, the empty symbol and the special floating-point
/// spellings; a sign or digit for numbers; escaped content for symbols.
proof fn lemma_first_char_shape(t: DatumTokenView)
    requires
        t.wf(),
        !(t is String),
        !(t is ListStart),
        !(t is ListEnd),
    ensures
        token_classified(t).len() >= 1,
        ({
            let cl = token_classified(t)[0].spec_class();
            cl == DatumCharClass::SpecialID || cl == DatumCharClass::Sign || cl
                == DatumCharClass::Digit || cl == DatumCharClass::Content
        }),
{
    match t {
        DatumTokenView::Integer(_, v) => {
            if v < 0 {
            } else {
                lemma_dec_digits_denote(v as nat);
                let text = spec_i64_text(v);
                assert(is_dec_digit(text[0]));
                assert(classify(text[0]) == Some(DatumCharClass::Digit));
            }
        },
        DatumTokenView::Float(_, tx) => {
            let written = float_write_chars(tx);
            if float_text_is_nan(tx) || float_text_is_inf(tx) {
                assert(written[0] == '#');
            } else {
                assert(written[0] == tx[0]);
                if is_dec_digit(tx[0]) {
                    assert(classify(tx[0]) == Some(DatumCharClass::Digit));
                } else {
                    assert(tx[0] == '-');
                }
            }
        },
        _ => {},
    }
}

/// Every classified character after the first of an identifier-like token
/// can continue an identifier.
proof fn lemma_token_body_potential(t: DatumTokenView)
    requires
        t.wf(),
        !(t is String),
        !(t is ListStart),
        !(t is ListEnd),
    ensures
        forall|k: int| 1 <= k < token_classified(t).len() ==> (#[trigger] token_classified(
            t,
        )[k]).spec_class().spec_potential_identifier(),
{
    let dcs = token_classified(t);
    assert forall|k: int| 1 <= k < dcs.len() implies (#[trigger] dcs[k]).spec_class().spec_potential_identifier() by {
        match t {
            DatumTokenView::Symbol(_, b) => {
                if b.len() == 0 {
                } else if classify(b[0]) == Some(DatumCharClass::Sign) {
                    if b.len() > 1 && k >= 2 {
                        assert(dcs[k] == DatumChar::spec_potential_identifier(b.skip(2)[k - 2]));
                    }
                } else {
                    assert(dcs[k] == DatumChar::spec_potential_identifier(b.skip(1)[k - 1]));
                }
            },
            DatumTokenView::SpecialID(_, b) => {
                assert(dcs[k] == DatumChar::spec_potential_identifier(b[k - 1]));
            },
            DatumTokenView::Integer(_, v) => {
                let text = spec_i64_text(v);
                assert(dcs[k] == raw_classified(text)[k]);
                if v < 0 {
                    lemma_dec_digits_denote((-(v as int)) as nat);
                    assert(text[k] == dec_digits((-(v as int)) as nat)[k - 1]);
                    assert(is_dec_digit(text[k]));
                } else {
                    lemma_dec_digits_denote(v as nat);
                    assert(is_dec_digit(text[k]));
                }
                assert(classify(text[k]) == Some(DatumCharClass::Digit));
            },
            DatumTokenView::Float(_, tx) => {
                let written = float_write_chars(tx);
                assert(dcs[k] == raw_classified(written)[k]);
                lemma_float_char_potential(tx, k);
            },
            _ => {},
        }
    }
}

/// Every character the writer emits for a floating-point token, after the
/// first, classifies as something that can continue an identifier.
proof fn lemma_float_char_potential(tx: Seq<char>, k: int)
    requires
        float_token_text_wf(tx),
        1 <= k < float_write_chars(tx).len(),
    ensures
        classify(float_write_chars(tx)[k]) is Some,
        classify(float_write_chars(tx)[k]).unwrap().spec_potential_identifier(),
{
    let written = float_write_chars(tx);
    if float_text_is_nan(tx) || float_text_is_inf(tx) {
        // the spelled-out special IDs hold only letters, signs, a dot and a
        // digit
    } else {
        assert(float_text_is_number(tx));
        lemma_float_number_alphabet(sign_body(tx));
        let c = written[k];
        if has_float_indicator(tx) {
            assert(written == tx);
            if tx.len() > 0 && (tx[0] == '+' || tx[0] == '-') && k >= 1 {
                assert(sign_body(tx)[k - 1] == tx[k]);
            } else {
                assert(sign_body(tx)[k] == tx[k]);
            }
            assert(is_dec_digit(c) || c == '.' || c == 'e' || c == 'E' || c == '+' || c == '-');
        } else {
            assert(written == tx + seq!['.', '0']);
            if k < tx.len() {
                if tx.len() > 0 && (tx[0] == '+' || tx[0] == '-') && k >= 1 {
                    assert(sign_body(tx)[k - 1] == tx[k]);
                } else {
                    assert(sign_body(tx)[k] == tx[k]);
                }
                assert(is_dec_digit(c) || c == '.' || c == 'e' || c == 'E' || c == '+' || c
                    == '-');
            } else {
                assert(c == '.' || c == '0');
            }
        }
    }
}


/// A prefix of an error-free run is error-free.
proof fn lemma_run_prefix_ok<P: crate::pipe::DatumPipe>(
    p: P::V,
    inputs: Seq<(DatumOffset, Option<<P::Input as View>::V>)>,
    n: int,
)
    requires
        0 <= n <= inputs.len(),
        pipe_run::<P>(p, inputs).error is None,
    ensures
        pipe_run::<P>(p, inputs.take(n)).error is None,
    decreases inputs.len(),
{
    reveal_with_fuel(pipe_run, 2);
    if n == 0 {
        assert(inputs.take(0) =~= Seq::<(DatumOffset, Option<<P::Input as View>::V>)>::empty());
    } else {
        let first = P::pipe_step(p, inputs[0].0, inputs[0].1);
        assert(first.error is None);
        assert(inputs.take(n)[0] == inputs[0]);
        assert(inputs.take(n).drop_first() =~= inputs.drop_first().take(n - 1));
        lemma_run_prefix_ok::<P>(first.state, inputs.drop_first(), n - 1);
    }
}

/// Running a composed pipe over inputs (none of them end of input) where the
/// first stage never fails: the stages run in sequence, the second over
/// everything the first emits.
proof fn lemma_compose_run<A: crate::pipe::DatumPipe, B: crate::pipe::DatumPipe<Input = A::Output>>(
    a0: A::V,
    b0: B::V,
    inputs: Seq<(DatumOffset, Option<<A::Input as View>::V>)>,
)
    requires
        forall|k: int| 0 <= k < inputs.len() ==> (#[trigger] inputs[k]).1 is Some,
        pipe_run::<A>(a0, inputs).error is None,
        pipe_run::<B>(
            b0,
            pipe_run::<A>(a0, inputs).emitted.map_values(
                |p: (DatumOffset, <A::Output as View>::V)| (p.0, Some(p.1)),
            ),
        ).error is None,
    ensures
        ({
            let ra = pipe_run::<A>(a0, inputs);
            let rb = pipe_run::<B>(
                b0,
                ra.emitted.map_values(
                    |p: (DatumOffset, <A::Output as View>::V)| (p.0, Some(p.1)),
                ),
            );
            let rc = pipe_run::<crate::pipe::DatumComposePipe<A, B>>((a0, b0), inputs);
            &&& rc.error is None
            &&& rc.state == (ra.state, rb.state)
            &&& rc.emitted == rb.emitted
        }),
    decreases inputs.len(),
{
    reveal_with_fuel(pipe_run, 2);
    let ra = pipe_run::<A>(a0, inputs);
    let rb_inputs = ra.emitted.map_values(
        |p: (DatumOffset, <A::Output as View>::V)| (p.0, Some(p.1)),
    );
    let rb = pipe_run::<B>(b0, rb_inputs);
    let rc = pipe_run::<crate::pipe::DatumComposePipe<A, B>>((a0, b0), inputs);
    if inputs.len() == 0 {
        assert(rb_inputs =~= Seq::<(DatumOffset, Option<<B::Input as View>::V>)>::empty());
    } else {
        let sa = A::pipe_step(a0, inputs[0].0, inputs[0].1);
        let sa_mapped = sa.emitted.map_values(
            |p: (DatumOffset, <A::Output as View>::V)| (p.0, Some(p.1)),
        );
        let rest = inputs.drop_first();
        let ra_rest = pipe_run::<A>(sa.state, rest);
        assert(ra.state == ra_rest.state);
        assert(ra.emitted == sa.emitted + ra_rest.emitted);
        let rest_mapped = ra_rest.emitted.map_values(
            |p: (DatumOffset, <A::Output as View>::V)| (p.0, Some(p.1)),
        );
        assert(rb_inputs =~= sa_mapped + rest_mapped);
        lemma_run_prefix_ok::<B>(b0, rb_inputs, sa_mapped.len() as int);
        assert(rb_inputs.take(sa_mapped.len() as int) =~= sa_mapped);
        lemma_pipe_run_concat::<B>(b0, sa_mapped, rest_mapped);
        let rb1 = pipe_run::<B>(b0, sa_mapped);
        let sc = crate::pipe::DatumComposePipe::<A, B>::pipe_step(
            (a0, b0),
            inputs[0].0,
            inputs[0].1,
        );
        assert(sc.state == (sa.state, rb1.state));
        assert(sc.emitted == rb1.emitted);
        assert(sc.error is None);
        lemma_compose_run::<A, B>(sa.state, rb1.state, rest);
        assert(rc.emitted =~= rb.emitted);
    }
}

/// The text the writer emits for a well-formed token, fed to the
/// character-to-token pipeline and followed by end of input, reads back as
/// exactly the token read back (see [`token_read_back`]), reported at the
/// offset where its text begins: the round trip at the token level, over
/// actual text.
#[verifier::rlimit(100)]
pub proof fn lemma_token_text_round_trip(t: DatumTokenView, base: DatumOffset)
    requires
        t.wf(),
        base + spec_token_write(t).len() + 1 <= 0xffff_ffff_ffff_ffff,
    ensures
        ({
            let text = spec_token_write(t);
            let inputs = Seq::new(
                text.len(),
                |i: int| ((base + i) as DatumOffset, Some(text[i])),
            ).push(((base + text.len()) as DatumOffset, None));
            let fresh = (
                DatumDecoder(DatumDecoderState::Normal),
                (Seq::<char>::empty(), DatumTokenizer(DatumTokenizerState::Start)),
            );
            let run = pipe_run::<crate::pipelines::DatumCharToTokenPipeline>(fresh, inputs);
            &&& run.error is None
            &&& run.emitted.len() == 1
            &&& run.emitted[0].0 == base
            &&& exists|d: DatumOffset| run.emitted[0].1 == #[trigger] token_read_back(t, d)
        }),
{
    reveal_with_fuel(pipe_run, 2);
    let text = spec_token_write(t);
    let dcs = token_classified(t);
    lemma_token_write_is_stream(t);
    let char_inputs = Seq::new(text.len(), |i: int| ((base + i) as DatumOffset, Some(text[i])));
    let eof_at = (base + text.len()) as DatumOffset;
    let whole = char_inputs.push((eof_at, None));
    let a0 = DatumDecoder(DatumDecoderState::Normal);
    let b0 = (Seq::<char>::empty(), DatumTokenizer(DatumTokenizerState::Start));
    // the decoder turns the written text back into the classified characters
    lemma_decoder_reads_back_stream(dcs, base);
    let ra = pipe_run::<DatumDecoder>(a0, char_inputs);
    assert(ra.emitted == Seq::new(
        dcs.len(),
        |k: int| ((base + chars_write(dcs.take(k)).len()) as DatumOffset, dcs[k]),
    ));
    // the tokenizer turns the classified characters back into the token
    let b_inputs = ra.emitted.map_values(|p: (DatumOffset, DatumChar)| (p.0, Some(p.1)));
    assert forall|k: int| 0 <= k < b_inputs.len() implies #[trigger] b_inputs[k].1 == Some(
        dcs[k],
    ) by {
        assert(ra.emitted[k].1 == dcs[k]);
    }
    assert(dcs.len() >= 1) by {
        match t {
            DatumTokenView::String(..) => {},
            DatumTokenView::ListStart(_) | DatumTokenView::ListEnd(_) => {},
            _ => {
                lemma_first_char_shape(t);
            },
        }
    }
    assert(b_inputs[0].0 == base) by {
        assert(dcs.take(0) =~= Seq::<DatumChar>::empty());
    }
    lemma_tokenizer_reads_back_token(t, b_inputs, eof_at);
    assert(pipe_run::<DatumPipeTokenizer>(b0, b_inputs).error is None) by {
        lemma_run_prefix_ok::<DatumPipeTokenizer>(
            b0,
            b_inputs.push((eof_at, None)),
            b_inputs.len() as int,
        );
        assert(b_inputs.push((eof_at, None)).take(b_inputs.len() as int) =~= b_inputs);
    }
    // composing the two runs
    lemma_compose_run::<DatumDecoder, DatumPipeTokenizer>(a0, b0, char_inputs);
    let rb_pre = pipe_run::<DatumPipeTokenizer>(b0, b_inputs);
    let rc_pre = pipe_run::<crate::pipelines::DatumCharToTokenPipeline>((a0, b0), char_inputs);
    lemma_pipe_run_push::<crate::pipelines::DatumCharToTokenPipeline>(
        (a0, b0),
        char_inputs,
        (eof_at, None),
    );
    // the end-of-input step: the decoder is back in its normal state and
    // emits nothing, and the tokenizer closes any pending token
    let sc_eof = crate::pipe::DatumComposePipe::<DatumDecoder, DatumPipeTokenizer>::pipe_step(
        rc_pre.state,
        eof_at,
        None,
    );
    assert(decoder_step(ra.state, eof_at, None).emitted =~= Seq::<
        (DatumOffset, DatumChar),
    >::empty());
    lemma_pipe_run_push::<DatumPipeTokenizer>(b0, b_inputs, (eof_at, None));
    assert(pipe_run::<DatumPipeTokenizer>(
        rb_pre.state,
        Seq::<(DatumOffset, Option<DatumChar>)>::empty(),
    ).emitted =~= Seq::<(DatumOffset, DatumTokenView)>::empty());
    let run = pipe_run::<crate::pipelines::DatumCharToTokenPipeline>((a0, b0), whole);
    assert(run.emitted =~= rb_pre.emitted + DatumPipeTokenizer::pipe_step(
        rb_pre.state,
        eof_at,
        None,
    ).emitted);
    assert(run.emitted =~= pipe_run::<DatumPipeTokenizer>(
        b0,
        b_inputs.push((eof_at, None)),
    ).emitted);
    let done_at = match t {
        DatumTokenView::ListStart(_) => b_inputs[0].0,
        DatumTokenView::ListEnd(_) => b_inputs[0].0,
        DatumTokenView::String(..) => b_inputs[b_inputs.len() - 1].0,
        _ => eof_at,
    };
    assert(run.emitted[0].1 == token_read_back(t, done_at));
}


/// An atom writes exactly as the token that re-creates it writes.
pub proof fn lemma_atom_write_as_token(a: DatumAtomView)
    ensures
        spec_atom_write(a) == spec_token_write(atom_token(a)),
{
    reveal_with_fuel(crate::token::potential_id_chars, 5);
    match a {
        DatumAtomView::Boolean(v) => {
            if v {
                assert(spec_token_write(atom_token(a)) =~= seq!['#', 't']);
            } else {
                assert(spec_token_write(atom_token(a)) =~= seq!['#', 'f']);
            }
        },
        DatumAtomView::Nil => {
            assert(spec_token_write(atom_token(a)) =~= seq!['#', 'n', 'i', 'l']);
        },
        _ => {},
    }
}

/// The atom that comes back from writing an atom and reading its token
/// again: the same atom, except that floating-point text is normalized to
/// what the writer emits for it.
pub open spec fn atom_read_back(a: DatumAtomView) -> DatumAtomView {
    match a {
        DatumAtomView::Float(tx) => if float_text_is_nan(tx) {
            DatumAtomView::Float(seq!['n', 'a', 'n'])
        } else if float_text_is_inf(tx) {
            if float_text_negative(tx) {
                DatumAtomView::Float(seq!['-', 'i', 'n', 'f'])
            } else {
                DatumAtomView::Float(seq!['i', 'n', 'f'])
            }
        } else {
            DatumAtomView::Float(float_write_chars(tx))
        },
        _ => a,
    }
}

/// Converting the token read back from an atom's written token yields the
/// atom read back: the atom-level half of the round trip. Atoms other than
/// floating-point ones come back exactly; floating-point text comes back as
/// its written normal form, which is stable from then on.
pub proof fn lemma_atom_token_read_back(a: DatumAtomView, d: DatumOffset)
    requires
        a.wf(),
    ensures
        spec_atom_from_token(token_read_back(atom_token(a), d)) == Ok::<
            DatumAtomView,
            crate::errors::DatumErrorId,
        >(atom_read_back(a)),
        atom_read_back(atom_read_back(a)) == atom_read_back(a),
{
    match a {
        DatumAtomView::Symbol(b) => {
            if b.len() == 0 {
                assert(b =~= Seq::<char>::empty());
                let marker = seq!['{', '}', '#'];
                assert(crate::numbers::lower_seq(marker).len() == 3);
                assert(crate::numbers::lower_seq(marker)[0] == '{');
                assert(marker[0] == '{' && seq!['t'][0] == 't' && seq!['f'][0] == 'f');
                assert(crate::numbers::lower_seq(marker) != seq!['t']);
                assert(crate::numbers::lower_seq(marker) != seq!['f']);
                assert(crate::numbers::lower_seq(marker)[0] != 'n');
                assert(crate::numbers::lower_seq(marker) != seq!['n', 'i', 'l']);
            }
        },
        DatumAtomView::Boolean(v) => {
            if v {
                assert(crate::numbers::lower_seq(seq!['t']) =~= seq!['t']);
            } else {
                assert(crate::numbers::lower_seq(seq!['f']) =~= seq!['f']);
                assert(seq!['f'][0] == 'f' && seq!['t'][0] == 't');
            }
        },
        DatumAtomView::Nil => {
            assert(crate::numbers::lower_seq(seq!['n', 'i', 'l']) =~= seq!['n', 'i', 'l']);
        },
        DatumAtomView::Float(tx) => {
            if float_text_is_nan(tx) {
                lemma_float_spelling_round_trip(seq!['i', '+', 'n', 'a', 'n', '.', '0']);
                lemma_canonical_specials();
            } else if float_text_is_inf(tx) {
                if float_text_negative(tx) {
                    lemma_float_spelling_round_trip(seq!['i', '-', 'i', 'n', 'f', '.', '0']);
                } else {
                    lemma_float_spelling_round_trip(seq!['i', '+', 'i', 'n', 'f', '.', '0']);
                }
                lemma_canonical_specials();
            } else {
                lemma_float_written_resolves(tx);
                let w = float_write_chars(tx);
                assert(!float_text_is_nan(w) && !float_text_is_inf(w)) by {
                    assert(float_text_is_number(w));
                    lemma_number_not_special(w);
                }
                assert(float_write_chars(w) == w);
            }
        },
        _ => {},
    }
}

/// The three reserved special-ID spellings convert to the canonical
/// floating-point texts.
proof fn lemma_float_spelling_round_trip(b: Seq<char>)
    requires
        b == seq!['i', '+', 'n', 'a', 'n', '.', '0'] || b == seq!['i', '+', 'i', 'n', 'f', '.', '0']
            || b == seq!['i', '-', 'i', 'n', 'f', '.', '0'],
    ensures
        ({
            let lb = crate::numbers::lower_seq(b);
            &&& lb == b
            &&& lb != seq!['t']
            &&& lb != seq!['f']
            &&& lb != seq!['n', 'i', 'l']
            &&& b != seq!['{', '}', '#']
            &&& b[0] != 'x' && b[0] != 'X'
        }),
{
    assert(crate::numbers::lower_seq(b) =~= b);
    assert(b[0] == 'i');
    assert(b[1] == '+' || b[1] == '-');
    assert(seq!['{', '}', '#'][0] == '{');
}

/// The canonical special floating-point texts really spell not-a-number and
/// the infinities.
proof fn lemma_canonical_specials()
    ensures
        float_text_is_nan(seq!['n', 'a', 'n']),
        float_text_is_inf(seq!['i', 'n', 'f']),
        float_text_is_inf(seq!['-', 'i', 'n', 'f']),
        float_text_negative(seq!['-', 'i', 'n', 'f']),
        !float_text_negative(seq!['i', 'n', 'f']),
        !float_text_is_inf(seq!['n', 'a', 'n']),
        !float_text_is_nan(seq!['i', 'n', 'f']),
        !float_text_is_nan(seq!['-', 'i', 'n', 'f']),
        float_token_text_wf(seq!['n', 'a', 'n']),
        float_token_text_wf(seq!['i', 'n', 'f']),
        float_token_text_wf(seq!['-', 'i', 'n', 'f']),
{
    let nan = seq!['n', 'a', 'n'];
    let inf = seq!['i', 'n', 'f'];
    let ninf = seq!['-', 'i', 'n', 'f'];
    assert(sign_body(nan) =~= nan);
    assert(crate::numbers::lower_seq(nan) =~= nan);
    assert(sign_body(inf) =~= inf);
    assert(crate::numbers::lower_seq(inf) =~= inf);
    assert(sign_body(ninf) =~= inf);
    assert(nan[0] == 'n' && inf[0] == 'i');
    assert(crate::numbers::lower_seq(nan) != seq!['i', 'n', 'f'] && crate::numbers::lower_seq(nan)
        != seq!['i', 'n', 'f', 'i', 'n', 'i', 't', 'y']);
    assert(crate::numbers::lower_seq(inf) != nan);
}

/// Text the number recognizer accepts spells neither not-a-number nor an
/// infinity: those spellings hold letters the recognizer rejects.
proof fn lemma_number_not_special(w: Seq<char>)
    requires
        float_text_is_number(w),
    ensures
        !float_text_is_nan(w),
        !float_text_is_inf(w),
{
    lemma_float_number_alphabet(sign_body(w));
    let b = sign_body(w);
    if float_text_is_nan(w) {
        assert(crate::numbers::lower_seq(b)[0] == 'n');
        assert(crate::numbers::spec_ascii_lower(b[0]) == 'n');
        assert(b[0] == 'n' || b[0] == 'N');
        assert(!is_dec_digit(b[0]) && b[0] != '.' && b[0] != 'e' && b[0] != 'E' && b[0] != '+'
            && b[0] != '-');
    }
    if float_text_is_inf(w) {
        assert(crate::numbers::lower_seq(b)[0] == 'i');
        assert(crate::numbers::spec_ascii_lower(b[0]) == 'i');
        assert(b[0] == 'i' || b[0] == 'I');
        assert(!is_dec_digit(b[0]) && b[0] != '.' && b[0] != 'e' && b[0] != 'E' && b[0] != '+'
            && b[0] != '-');
    }
}

} // verus!
