//! Datum tokens with integrated text, and the pipeline stage that buffers
//! tokenizer actions into finished tokens.

use vstd::prelude::*;

use crate::errors::DatumError;
use crate::errors::DatumErrorId;
use crate::errors::DatumErrorKind;
use crate::errors::DatumOffset;
use crate::errors::DatumResult;
use crate::errors::bad_data_at;
use crate::char_classes::DatumChar;
use crate::char_classes::DatumCharClass;
use crate::char_classes::classify;
use crate::char_classes::spec_datum_char;
use crate::numbers::float_text_acceptable;
use crate::numbers::float_text_is_inf;
use crate::numbers::float_text_is_nan;
use crate::numbers::float_text_infinite;
use crate::numbers::float_text_nan;
use crate::numbers::float_text_wf;
use crate::numbers::is_dec_digit;
use crate::numbers::find_float_indicator;
use crate::numbers::float_text_negative;
use crate::numbers::has_float_indicator;
use crate::numbers::parse_i64_dec;
use crate::numbers::spec_i64_text;
use crate::numbers::spec_parse_i64;
use crate::numbers::write_i64_dec;
use crate::pipe::DatumBoundedPipe;
use crate::pipe::DatumPipe;
use crate::pipe::PipeStep;
use crate::pipe::emitted_views;
use crate::pipe::opt_view;
use crate::token_core::DatumTokenType;
use crate::token_core::DatumTokenizer;
use crate::token_core::DatumTokenizerAction;
use crate::token_core::tokenizer_step;

verus! {

/// Text that may stand as the payload of a floating-point token: it reads
/// back as a floating-point value, and unless it spells not-a-number or an
/// infinity it begins with a minus sign or a digit, so that writing it
/// verbatim re-tokenizes as one numeric token.
pub open spec fn float_token_text_wf(t: Seq<char>) -> bool {
    &&& float_text_wf(t)
    &&& (float_text_is_nan(t) || float_text_is_inf(t) || (t.len() > 0 && (t[0] == '-'
        || is_dec_digit(t[0]))))
}

/// Datum token with integrated text.
///
/// Integers are stored as their value, and floating-point numbers as
/// validated text (see [`float_token_text_wf`]), so that no unwritable token
/// can be constructed through [`DatumToken::try_from`].
#[derive(Clone, PartialEq, Debug)]
pub enum DatumToken {
    /// String. The text is the unescaped string contents.
    String(DatumOffset, Vec<char>),
    /// Symbol. The text is the symbol.
    Symbol(DatumOffset, Vec<char>),
    /// Special ID. The text is the symbol text after, but not including, `#`.
    SpecialID(DatumOffset, Vec<char>),
    /// Integer.
    Integer(DatumOffset, i64),
    /// Floating-point number, carried as the text it was read from or will
    /// be written as.
    Float(DatumOffset, Vec<char>),
    /// List start.
    ListStart(DatumOffset),
    /// List end.
    ListEnd(DatumOffset),
}

impl Default for DatumToken {
    /// A list-end token at offset zero; arbitrarily chosen array filler.
    fn default() -> (r: Self)
        ensures
            r == DatumToken::ListEnd(0),
    {
        Self::ListEnd(0)
    }
}

/// The view of a [`DatumToken`]: the same shape with text as character
/// sequences.
#[verifier::ext_equal]
pub enum DatumTokenView {
    /// String contents.
    String(DatumOffset, Seq<char>),
    /// Symbol text.
    Symbol(DatumOffset, Seq<char>),
    /// Special ID text.
    SpecialID(DatumOffset, Seq<char>),
    /// Integer value.
    Integer(DatumOffset, i64),
    /// Floating-point text.
    Float(DatumOffset, Seq<char>),
    /// List start.
    ListStart(DatumOffset),
    /// List end.
    ListEnd(DatumOffset),
}

impl View for DatumToken {
    type V = DatumTokenView;

    open spec fn view(&self) -> DatumTokenView {
        match self {
            DatumToken::String(at, b) => DatumTokenView::String(*at, b@),
            DatumToken::Symbol(at, b) => DatumTokenView::Symbol(*at, b@),
            DatumToken::SpecialID(at, b) => DatumTokenView::SpecialID(*at, b@),
            DatumToken::Integer(at, v) => DatumTokenView::Integer(*at, *v),
            DatumToken::Float(at, b) => DatumTokenView::Float(*at, b@),
            DatumToken::ListStart(at) => DatumTokenView::ListStart(*at),
            DatumToken::ListEnd(at) => DatumTokenView::ListEnd(*at),
        }
    }
}

impl DatumTokenView {
    /// The token type.
    pub open spec fn token_type(self) -> DatumTokenType {
        match self {
            DatumTokenView::String(..) => DatumTokenType::String,
            DatumTokenView::Symbol(..) => DatumTokenType::ID,
            DatumTokenView::SpecialID(..) => DatumTokenType::SpecialID,
            DatumTokenView::Integer(..) => DatumTokenType::Numeric,
            DatumTokenView::Float(..) => DatumTokenType::Numeric,
            DatumTokenView::ListStart(..) => DatumTokenType::ListStart,
            DatumTokenView::ListEnd(..) => DatumTokenType::ListEnd,
        }
    }

    /// The text carried by a text-bearing token.
    pub open spec fn text(self) -> Option<Seq<char>> {
        match self {
            DatumTokenView::String(_, b) => Some(b),
            DatumTokenView::Symbol(_, b) => Some(b),
            DatumTokenView::SpecialID(_, b) => Some(b),
            _ => None,
        }
    }

    /// The offset the token carries.
    pub open spec fn offset(self) -> DatumOffset {
        match self {
            DatumTokenView::String(at, _) => at,
            DatumTokenView::Symbol(at, _) => at,
            DatumTokenView::SpecialID(at, _) => at,
            DatumTokenView::Integer(at, _) => at,
            DatumTokenView::Float(at, _) => at,
            DatumTokenView::ListStart(at) => at,
            DatumTokenView::ListEnd(at) => at,
        }
    }

    /// Well-formedness: a floating-point token carries writable text.
    pub open spec fn wf(self) -> bool {
        match self {
            DatumTokenView::Float(_, t) => float_token_text_wf(t),
            _ => true,
        }
    }
}

/// The token that [`DatumToken::try_from`] builds from a token type, the
/// offset it carries, and the buffered text: the text itself for text-bearing
/// types, and for numeric text the denoted integer first, floating-point text
/// as the fallback. Numeric text that denotes neither — including
/// floating-point spellings the tokenizer cannot produce, such as a leading
/// plus sign or dot on a finite number — is bad data.
pub open spec fn spec_token_from_parts(
    tt: DatumTokenType,
    at: DatumOffset,
    text: Seq<char>,
) -> Result<DatumTokenView, DatumErrorId> {
    match tt {
        DatumTokenType::String => Ok(DatumTokenView::String(at, text)),
        DatumTokenType::ID => Ok(DatumTokenView::Symbol(at, text)),
        DatumTokenType::SpecialID => Ok(DatumTokenView::SpecialID(at, text)),
        DatumTokenType::Numeric => match spec_parse_i64(text) {
            Some(v) => Ok(DatumTokenView::Integer(at, v)),
            None => if float_token_text_wf(text) {
                Ok(DatumTokenView::Float(at, text))
            } else {
                Err(bad_data_at(at))
            },
        },
        DatumTokenType::ListStart => Ok(DatumTokenView::ListStart(at)),
        DatumTokenType::ListEnd => Ok(DatumTokenView::ListEnd(at)),
    }
}

impl DatumToken {
    /// Builds the token of the given type from its offset and buffered text;
    /// see [`spec_token_from_parts`]. Numbers are resolved here, so that
    /// every token this returns is writable.
    pub fn try_from(tt: DatumTokenType, at: DatumOffset, text: Vec<char>) -> (r: DatumResult<
        DatumToken,
    >)
        ensures
            ({
                let sr = spec_token_from_parts(tt, at, text@);
                match r {
                    Ok(tok) => sr == Ok::<DatumTokenView, DatumErrorId>(tok@) && tok@.wf(),
                    Err(e) => sr == Err::<DatumTokenView, DatumErrorId>(e.id()),
                }
            }),
    {
        match tt {
            DatumTokenType::String => Ok(DatumToken::String(at, text)),
            DatumTokenType::ID => Ok(DatumToken::Symbol(at, text)),
            DatumTokenType::SpecialID => Ok(DatumToken::SpecialID(at, text)),
            DatumTokenType::Numeric => {
                if let Some(v) = parse_i64_dec(&text) {
                    return Ok(DatumToken::Integer(at, v));
                }
                let plain_start = text.len() > 0 && {
                    let c = text[0];
                    let n = c as u32;
                    c == '-' || (48 <= n && n <= 57)
                };
                if float_text_acceptable(&text) && (float_text_nan(&text) || float_text_infinite(
                    &text,
                ) || plain_start) {
                    Ok(DatumToken::Float(at, text))
                } else {
                    Err(
                        DatumError {
                            kind: DatumErrorKind::BadData,
                            offset: at,
                            message: "token: bad numeric",
                        },
                    )
                }
            },
            DatumTokenType::ListStart => Ok(DatumToken::ListStart(at)),
            DatumTokenType::ListEnd => Ok(DatumToken::ListEnd(at)),
        }
    }

    /// Return the token type of this token.
    pub fn token_type(&self) -> (r: DatumTokenType)
        ensures
            r == self@.token_type(),
    {
        match self {
            Self::String(..) => DatumTokenType::String,
            Self::Symbol(..) => DatumTokenType::ID,
            Self::SpecialID(..) => DatumTokenType::SpecialID,
            Self::Integer(..) => DatumTokenType::Numeric,
            Self::Float(..) => DatumTokenType::Numeric,
            Self::ListStart(..) => DatumTokenType::ListStart,
            Self::ListEnd(..) => DatumTokenType::ListEnd,
        }
    }

    /// Return the text of this token, if the type has any.
    pub fn buffer(&self) -> (r: Option<&Vec<char>>)
        ensures
            match r {
                Some(b) => self@.text() == Some(b@),
                None => self@.text() is None,
            },
    {
        match self {
            Self::String(_, b) => Some(b),
            Self::Symbol(_, b) => Some(b),
            Self::SpecialID(_, b) => Some(b),
            _ => None,
        }
    }

    /// Return the offset of this token.
    pub fn offset(&self) -> (r: DatumOffset)
        ensures
            r == self@.offset(),
    {
        match self {
            Self::String(at, _) => *at,
            Self::Symbol(at, _) => *at,
            Self::SpecialID(at, _) => *at,
            Self::Integer(at, _) => *at,
            Self::Float(at, _) => *at,
            Self::ListStart(at) => *at,
            Self::ListEnd(at) => *at,
        }
    }
}

/// What a run of tokenizer actions does to the token buffer: characters are
/// pushed in order; each finished token takes the buffer as its text and
/// clears it (also when resolving the text fails). Processing stops at the
/// first failure.
pub open spec fn apply_actions(
    buffer: Seq<char>,
    at: DatumOffset,
    actions: Seq<(DatumOffset, DatumTokenizerAction)>,
) -> (Seq<char>, Seq<(DatumOffset, DatumTokenView)>, Option<DatumErrorId>)
    decreases actions.len(),
{
    if actions.len() == 0 {
        (buffer, Seq::empty(), None)
    } else {
        let prior = apply_actions(buffer, at, actions.drop_last());
        if prior.2 is Some {
            prior
        } else {
            let last = actions.last();
            match last.1 {
                DatumTokenizerAction::Push(c) => (prior.0.push(c), prior.1, None),
                DatumTokenizerAction::Token(tt) => match spec_token_from_parts(tt, at, prior.0) {
                    Ok(tok) => (Seq::empty(), prior.1.push((last.0, tok)), None),
                    Err(e) => (Seq::empty(), prior.1, Some(e)),
                },
            }
        }
    }
}

/// Tokenizer that owns the token text buffer and emits finished
/// [`DatumToken`]s: the [`DatumTokenizer`] state machine with its
/// [`DatumTokenizerAction`]s applied to an internal buffer.
#[derive(Clone, PartialEq, Debug)]
pub struct DatumPipeTokenizer(pub Vec<char>, pub DatumTokenizer);

impl Default for DatumPipeTokenizer {
    /// A tokenizer between tokens, with an empty buffer.
    fn default() -> (r: DatumPipeTokenizer)
        ensures
            r@ == (Seq::<char>::empty(), DatumTokenizer(
                crate::token_core::DatumTokenizerState::Start,
            )),
    {
        DatumPipeTokenizer(Vec::new(), DatumTokenizer::default())
    }
}

impl View for DatumPipeTokenizer {
    type V = (Seq<char>, DatumTokenizer);

    open spec fn view(&self) -> (Seq<char>, DatumTokenizer) {
        (self.0@, self.1)
    }
}

impl DatumPipe for DatumPipeTokenizer {
    type Input = DatumChar;

    type Output = DatumToken;

    open spec fn pipe_step(
        pre: (Seq<char>, DatumTokenizer),
        at: DatumOffset,
        i: Option<DatumChar>,
    ) -> PipeStep<(Seq<char>, DatumTokenizer), DatumTokenView> {
        let ts = tokenizer_step(pre.1, at, i);
        let applied = apply_actions(pre.0, at, ts.emitted);
        PipeStep {
            state: (applied.0, ts.state),
            emitted: applied.1,
            error: if applied.2 is Some {
                applied.2
            } else {
                ts.error
            },
        }
    }

    fn feed(&mut self, at: DatumOffset, i: Option<DatumChar>, out: &mut Vec<
        (DatumOffset, DatumToken),
    >) -> (r: DatumResult<()>) {
        let ghost ts = tokenizer_step(old(self).1, at, opt_view(i));
        let ghost buf0 = old(self).0@;
        let mut actions: Vec<(DatumOffset, DatumTokenizerAction)> = Vec::new();
        let res = self.1.feed(at, i, &mut actions);
        proof {
            assert(actions@ =~= ts.emitted);
        }
        let ghost all = ts.emitted;
        let mut k: usize = 0;
        while k < actions.len()
            invariant
                ts == tokenizer_step(old(self).1, at, opt_view(i)),
                buf0 == old(self).0@,
                actions@ == all,
                all == ts.emitted,
                0 <= k <= all.len(),
                self.1 == ts.state,
                apply_actions(buf0, at, all.take(k as int)).2 is None,
                self.0@ == apply_actions(buf0, at, all.take(k as int)).0,
                emitted_views(out@) == emitted_views(old(out)@) + apply_actions(
                    buf0,
                    at,
                    all.take(k as int),
                ).1,
            decreases all.len() - k,
        {
            let ghost prior = apply_actions(buf0, at, all.take(k as int));
            let action = actions[k];
            proof {
                assert(all.take(k as int + 1).drop_last() =~= all.take(k as int));
                assert(all.take(k as int + 1).last() == all[k as int]);
            }
            match action.1 {
                DatumTokenizerAction::Push(c) => {
                    self.0.push(c);
                },
                DatumTokenizerAction::Token(tt) => {
                    let text = self.0.split_off(0);
                    proof {
                        assert(text@ =~= prior.0);
                        assert(self.0@ =~= Seq::<char>::empty());
                    }
                    match DatumToken::try_from(tt, at, text) {
                        Ok(tok) => {
                            let ghost pre_out = out@;
                            out.push((action.0, tok));
                            proof {
                                assert(out@ =~= pre_out.push((action.0, tok)));
                                assert(emitted_views(out@) =~= emitted_views(pre_out).push(
                                    (action.0, tok@),
                                ));
                                assert(emitted_views(out@) =~= emitted_views(old(out)@)
                                    + apply_actions(buf0, at, all.take(k as int + 1)).1);
                            }
                        },
                        Err(e) => {
                            proof {
                                let failed = apply_actions(buf0, at, all.take(k as int + 1));
                                assert(failed.2 == Some(e.id()));
                                lemma_apply_actions_stops(buf0, at, all, k as int + 1);
                                assert(emitted_views(out@) =~= emitted_views(old(out)@)
                                    + apply_actions(buf0, at, all).1);
                            }
                            return Err(e);
                        },
                    }
                },
            }
            k = k + 1;
        }
        proof {
            assert(all.take(all.len() as int) =~= all);
        }
        res
    }
}

/// Once applying a prefix of the actions fails, applying the whole sequence
/// gives the same outcome.
proof fn lemma_apply_actions_stops(
    buffer: Seq<char>,
    at: DatumOffset,
    actions: Seq<(DatumOffset, DatumTokenizerAction)>,
    n: int,
)
    requires
        0 <= n <= actions.len(),
        apply_actions(buffer, at, actions.take(n)).2 is Some,
    ensures
        apply_actions(buffer, at, actions) == apply_actions(buffer, at, actions.take(n)),
    decreases actions.len() - n,
{
    if n < actions.len() {
        assert(actions.take(n + 1).drop_last() =~= actions.take(n));
        assert(apply_actions(buffer, at, actions.take(n + 1)) == apply_actions(
            buffer,
            at,
            actions.take(n),
        ));
        lemma_apply_actions_stops(buffer, at, actions, n + 1);
    } else {
        assert(actions.take(n) =~= actions);
    }
}


/// The text written for a string body: each payload character as
/// [`DatumChar::spec_string_content`] emits it.
pub open spec fn string_body_chars(s: Seq<char>) -> Seq<char>
    decreases s.len(),
{
    if s.len() == 0 {
        Seq::empty()
    } else {
        string_body_chars(s.drop_last()) + DatumChar::spec_string_content(s.last()).write_chars()
    }
}

/// The text written for a run of identifier characters: each character as
/// [`DatumChar::spec_potential_identifier`] emits it.
pub open spec fn potential_id_chars(s: Seq<char>) -> Seq<char>
    decreases s.len(),
{
    if s.len() == 0 {
        Seq::empty()
    } else {
        potential_id_chars(s.drop_last()) + DatumChar::spec_potential_identifier(
            s.last(),
        ).write_chars()
    }
}

/// The text written for a symbol: the empty symbol as its reserved marker; a
/// leading sign character protected by escaping it and the character after
/// it, since an unescaped sign beginning a token would read back as numeric
/// (except a lone sign, which reads back as a symbol already); everything
/// else in identifier escaping.
pub open spec fn symbol_write_chars(b: Seq<char>) -> Seq<char> {
    if b.len() == 0 {
        seq!['#', '{', '}', '#']
    } else if classify(b[0]) == Some(DatumCharClass::Sign) {
        if b.len() == 1 {
            seq![b[0]]
        } else {
            spec_datum_char(b[0], DatumCharClass::Content).write_chars() + spec_datum_char(
                b[1],
                DatumCharClass::Content,
            ).write_chars() + potential_id_chars(b.skip(2))
        }
    } else {
        spec_datum_char(b[0], DatumCharClass::Content).write_chars() + potential_id_chars(
            b.skip(1),
        )
    }
}

/// The text written for a floating-point token: the three special spellings
/// for not-a-number and the infinities; otherwise the carried text, with
/// `.0` appended when nothing marks it as floating-point, so that it can
/// never read back as an integer.
pub open spec fn float_write_chars(t: Seq<char>) -> Seq<char> {
    if float_text_is_nan(t) {
        seq!['#', 'i', '+', 'n', 'a', 'n', '.', '0']
    } else if float_text_is_inf(t) {
        if float_text_negative(t) {
            seq!['#', 'i', '-', 'i', 'n', 'f', '.', '0']
        } else {
            seq!['#', 'i', '+', 'i', 'n', 'f', '.', '0']
        }
    } else if has_float_indicator(t) {
        t
    } else {
        t + seq!['.', '0']
    }
}

/// The text written for a token: text that tokenizes back to an equal token.
pub open spec fn spec_token_write(t: DatumTokenView) -> Seq<char> {
    match t {
        DatumTokenView::String(_, b) => seq!['"'] + string_body_chars(b) + seq!['"'],
        DatumTokenView::Symbol(_, b) => symbol_write_chars(b),
        DatumTokenView::SpecialID(_, b) => seq!['#'] + potential_id_chars(b),
        DatumTokenView::Integer(_, v) => spec_i64_text(v),
        DatumTokenView::Float(_, t) => float_write_chars(t),
        DatumTokenView::ListStart(_) => seq!['('],
        DatumTokenView::ListEnd(_) => seq![')'],
    }
}

/// Appends each character of `b`, from `from` on, in identifier escaping.
fn write_potential_id_chars(b: &Vec<char>, from: usize, f: &mut Vec<char>)
    requires
        from <= b@.len(),
    ensures
        final(f)@ == old(f)@ + potential_id_chars(b@.skip(from as int)),
{
    let mut k: usize = from;
    while k < b.len()
        invariant
            from <= k <= b@.len(),
            f@ == old(f)@ + potential_id_chars(b@.subrange(from as int, k as int)),
        decreases b@.len() - k,
    {
        DatumChar::potential_identifier(b[k]).write(f);
        k = k + 1;
        proof {
            assert(b@.subrange(from as int, k as int).drop_last() =~= b@.subrange(
                from as int,
                k as int - 1,
            ));
            assert(b@.subrange(from as int, k as int).last() == b@[k as int - 1]);
        }
    }
    proof {
        assert(b@.subrange(from as int, b@.len() as int) =~= b@.skip(from as int));
    }
}


/// Writes a string token for the given payload: quote, each payload
/// character in string escaping, quote.
pub fn write_string_chars(b: &Vec<char>, f: &mut Vec<char>)
    ensures
        final(f)@ == old(f)@ + seq!['"'] + string_body_chars(b@) + seq!['"'],
{
    f.push('"');
    let mut k: usize = 0;
    while k < b.len()
        invariant
            k <= b@.len(),
            f@ == old(f)@ + seq!['"'] + string_body_chars(b@.take(k as int)),
        decreases b@.len() - k,
    {
        DatumChar::string_content(b[k]).write(f);
        k = k + 1;
        proof {
            assert(b@.take(k as int).drop_last() =~= b@.take(k as int - 1));
            assert(b@.take(k as int).last() == b@[k as int - 1]);
        }
    }
    f.push('"');
    proof {
        assert(b@.take(b@.len() as int) =~= b@);
        assert(f@ =~= old(f)@ + seq!['"'] + string_body_chars(b@) + seq!['"']);
    }
}

/// Writes a symbol for the given text; see [`symbol_write_chars`].
pub fn write_symbol_chars(b: &Vec<char>, f: &mut Vec<char>)
    ensures
        final(f)@ == old(f)@ + symbol_write_chars(b@),
{
    if b.len() == 0 {
        f.push('#');
        f.push('{');
        f.push('}');
        f.push('#');
        proof {
            assert(f@ =~= old(f)@ + symbol_write_chars(b@));
        }
    } else {
        let first = b[0];
        let is_sign = match DatumCharClass::identify(first) {
            Some(DatumCharClass::Sign) => true,
            _ => false,
        };
        if is_sign {
            if b.len() == 1 {
                f.push(first);
                proof {
                    assert(f@ =~= old(f)@ + symbol_write_chars(b@));
                }
            } else {
                DatumChar::content(first).write(f);
                DatumChar::content(b[1]).write(f);
                write_potential_id_chars(b, 2, f);
                proof {
                    assert(f@ =~= old(f)@ + symbol_write_chars(b@));
                }
            }
        } else {
            DatumChar::content(first).write(f);
            write_potential_id_chars(b, 1, f);
            proof {
                assert(f@ =~= old(f)@ + symbol_write_chars(b@));
            }
        }
    }
}

/// Writes a floating-point token for the given text; see
/// [`float_write_chars`].
pub fn write_float_chars(b: &Vec<char>, f: &mut Vec<char>)
    ensures
        final(f)@ == old(f)@ + float_write_chars(b@),
{
    if float_text_nan(b) {
        f.push('#');
        f.push('i');
        f.push('+');
        f.push('n');
        f.push('a');
        f.push('n');
        f.push('.');
        f.push('0');
        proof {
            assert(f@ =~= old(f)@ + float_write_chars(b@));
        }
    } else if float_text_infinite(b) {
        f.push('#');
        f.push('i');
        if b.len() > 0 && b[0] == '-' {
            f.push('-');
        } else {
            f.push('+');
        }
        f.push('i');
        f.push('n');
        f.push('f');
        f.push('.');
        f.push('0');
        proof {
            assert(f@ =~= old(f)@ + float_write_chars(b@));
        }
    } else {
        let mut k: usize = 0;
        while k < b.len()
            invariant
                k <= b@.len(),
                f@ == old(f)@ + b@.take(k as int),
            decreases b@.len() - k,
        {
            f.push(b[k]);
            k = k + 1;
            proof {
                assert(f@ =~= old(f)@ + b@.take(k as int));
            }
        }
        proof {
            assert(b@.take(b@.len() as int) =~= b@);
        }
        if !find_float_indicator(b) {
            f.push('.');
            f.push('0');
            proof {
                assert(f@ =~= old(f)@ + float_write_chars(b@));
            }
        } else {
            proof {
                assert(f@ =~= old(f)@ + float_write_chars(b@));
            }
        }
    }
}

impl DatumToken {
    /// Writes this token as valid, parsable Datum text.
    pub fn write(&self, f: &mut Vec<char>)
        ensures
            final(f)@ == old(f)@ + spec_token_write(self@),
    {
        match self {
            Self::String(_, b) => {
                write_string_chars(b, f);
            },
            Self::Symbol(_, b) => {
                write_symbol_chars(b, f);
            },
            Self::SpecialID(_, b) => {
                f.push('#');
                write_potential_id_chars(b, 0, f);
                proof {
                    assert(b@.skip(0) =~= b@);
                    assert(f@ =~= old(f)@ + spec_token_write(self@));
                }
            },
            Self::Integer(_, v) => {
                write_i64_dec(*v, f);
            },
            Self::Float(_, b) => {
                write_float_chars(b, f);
            },
            Self::ListStart(_) => {
                f.push('(');
                proof {
                    assert(f@ =~= old(f)@ + spec_token_write(self@));
                }
            },
            Self::ListEnd(_) => {
                f.push(')');
                proof {
                    assert(f@ =~= old(f)@ + spec_token_write(self@));
                }
            },
        }
    }
}


/// Applying actions emits at most one token per action.
proof fn lemma_apply_actions_len(
    buffer: Seq<char>,
    at: DatumOffset,
    actions: Seq<(DatumOffset, DatumTokenizerAction)>,
)
    ensures
        apply_actions(buffer, at, actions).1.len() <= actions.len(),
    decreases actions.len(),
{
    if actions.len() > 0 {
        lemma_apply_actions_len(buffer, at, actions.drop_last());
    }
}

impl DatumBoundedPipe for DatumPipeTokenizer {
    /// One character yields at most two tokenizer actions, each of which
    /// finishes at most one token.
    open spec fn max_outputs_per_step() -> nat {
        2
    }

    proof fn lemma_output_bounded(
        pre: (Seq<char>, DatumTokenizer),
        at: DatumOffset,
        i: Option<DatumChar>,
    ) {
        crate::token_core::DatumTokenizer::lemma_output_bounded(pre.1, at, i);
        lemma_apply_actions_len(pre.0, at, tokenizer_step(pre.1, at, i).emitted);
    }
}

} // verus!
