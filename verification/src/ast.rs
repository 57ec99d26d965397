//! Datum tree values, and the parser from tokens into values.

use vstd::prelude::*;

use crate::atom::DatumAtom;
use crate::atom::DatumAtomView;
use crate::atom::spec_atom_from_token;
use crate::errors::DatumError;
use crate::errors::DatumErrorKind;
use crate::errors::DatumOffset;
use crate::errors::DatumResult;
use crate::errors::bad_data_at;
use crate::errors::interrupted_at;
use crate::pipe::DatumBoundedPipe;
use crate::pipe::DatumPipe;
use crate::pipe::PipeStep;
use crate::pipe::emitted_views;
use crate::pipe::opt_view;
use crate::token::DatumToken;
use crate::token::DatumTokenView;
use crate::token_core::DatumTokenType;
use crate::writer::DatumWriter;
use crate::writer::DatumWriterState;
use crate::writer::whitespace_chars;
use crate::writer::writer_state_after;
use crate::writer::writer_token_chars;
use crate::atom::spec_atom_write;

verus! {

broadcast use {
    vstd::std_specs::vec::axiom_vec_index_decreases,
    vstd::std_specs::vec::axiom_vec_decreases_to_view,
    vstd::seq::axiom_seq_index_decreases,
    vstd::seq::axiom_seq_subrange_decreases,
};

/// Datum tree value: an atom, or a list of values. Lists own their elements;
/// no cycles are possible.
#[derive(PartialEq, Debug)]
pub enum DatumValue {
    /// A leaf.
    Atom(DatumAtom),
    /// A list of values.
    List(Vec<DatumValue>),
}

/// The view of a [`DatumValue`]: the same tree with atoms as their views.
#[verifier::ext_equal]
pub enum DatumValueView {
    /// A leaf.
    Atom(DatumAtomView),
    /// A list of values.
    List(Seq<DatumValueView>),
}

impl View for DatumValue {
    type V = DatumValueView;

    open spec fn view(&self) -> DatumValueView
        decreases self,
    {
        match self {
            DatumValue::Atom(a) => DatumValueView::Atom(a@),
            DatumValue::List(items) => DatumValueView::List(value_list_view(items@)),
        }
    }
}

/// The views of a sequence of values: what a list of them views as.
pub open spec fn value_list_view(items: Seq<DatumValue>) -> Seq<DatumValueView>
    decreases items,
{
    Seq::new(
        items.len(),
        |i: int|
            if 0 <= i < items.len() {
                items[i]@
            } else {
                DatumValueView::Atom(DatumAtomView::Nil)
            },
    )
}

impl Default for DatumValue {
    /// The nil atom.
    fn default() -> (r: Self)
        ensures
            r == DatumValue::Atom(DatumAtom::Nil),
    {
        Self::Atom(DatumAtom::Nil)
    }
}

impl DatumValue {
    /// If this value is a list, returns a reference to it, otherwise `None`.
    pub fn as_list(&self) -> (r: Option<&Vec<DatumValue>>)
        ensures
            match r {
                Some(items) => self@ == DatumValueView::List(value_list_view(items@)),
                None => self@ is Atom,
            },
    {
        match self {
            DatumValue::List(list) => Some(list),
            _ => None,
        }
    }
}

/// The view of a parser: the offset at which the outermost value in progress
/// began, and the stack of open lists, outermost first.
pub type DatumParserStack = (DatumOffset, Seq<Seq<DatumValueView>>);

/// What the parser does with a completed value: emit it, when no list is
/// open, else append it to the innermost open list.
pub open spec fn parser_feed_value(st: DatumParserStack, v: DatumValueView) -> PipeStep<
    DatumParserStack,
    DatumValueView,
> {
    if st.1.len() == 0 {
        PipeStep { state: st, emitted: seq![(st.0, v)], error: None }
    } else {
        PipeStep {
            state: (st.0, st.1.drop_last().push(st.1.last().push(v))),
            emitted: Seq::empty(),
            error: None,
        }
    }
}

/// One step of the parser: the whole behaviour of [`DatumParser::feed`].
/// A list start opens a list; a list end closes the innermost one, the
/// completed list becoming a value like any other; any other token converts
/// to an atom. A list end with no open list, and a token that converts to no
/// atom, are bad data; end of input inside a list is an interruption.
pub open spec fn parser_step(
    pre: DatumParserStack,
    at: DatumOffset,
    i: Option<DatumTokenView>,
) -> PipeStep<DatumParserStack, DatumValueView> {
    match i {
        None => if pre.1.len() > 0 {
            PipeStep { state: pre, emitted: Seq::empty(), error: Some(interrupted_at(at)) }
        } else {
            PipeStep { state: pre, emitted: Seq::empty(), error: None }
        },
        Some(tok) => {
            let start = if pre.1.len() == 0 {
                at
            } else {
                pre.0
            };
            let st = (start, pre.1);
            match tok {
                DatumTokenView::ListStart(_) => PipeStep {
                    state: (start, pre.1.push(Seq::empty())),
                    emitted: Seq::empty(),
                    error: None,
                },
                DatumTokenView::ListEnd(_) => if pre.1.len() == 0 {
                    PipeStep { state: st, emitted: Seq::empty(), error: Some(bad_data_at(at)) }
                } else {
                    parser_feed_value(
                        (start, pre.1.drop_last()),
                        DatumValueView::List(pre.1.last()),
                    )
                },
                _ => match spec_atom_from_token(tok) {
                    Err(e) => PipeStep { state: st, emitted: Seq::empty(), error: Some(e) },
                    Ok(a) => parser_feed_value(st, DatumValueView::Atom(a)),
                },
            }
        },
    }
}

/// Datum parser: tokens in, tree values out, via an explicit stack of open
/// lists. An empty stack means "between top-level values". Emitted values
/// are reported at the offset of the token that began them.
#[derive(Debug)]
pub struct DatumParser {
    /// Offset at which the outermost value in progress began.
    start: DatumOffset,
    /// Stack of open lists, outermost first.
    stack: Vec<Vec<DatumValue>>,
}

impl Default for DatumParser {
    /// A parser between top-level values.
    fn default() -> (r: DatumParser)
        ensures
            r@ == (0u64, Seq::<Seq<DatumValueView>>::empty()),
    {
        DatumParser { start: 0, stack: Vec::new() }
    }
}

impl View for DatumParser {
    type V = DatumParserStack;

    closed spec fn view(&self) -> DatumParserStack {
        (self.start, Seq::new(self.stack@.len(), |i: int| value_list_view(self.stack@[i]@)))
    }
}

impl DatumParser {
    /// Delivers a completed value: emits it at the start offset when no list
    /// is open, else appends it to the innermost open list.
    fn feed_value(&mut self, v: DatumValue, out: &mut Vec<(DatumOffset, DatumValue)>) -> (r:
        DatumResult<()>)
        ensures
            ({
                let step = parser_feed_value(old(self)@, v@);
                &&& final(self)@ == step.state
                &&& emitted_views(final(out)@) == emitted_views(old(out)@) + step.emitted
                &&& r is Ok
            }),
    {
        let ghost pre = self@;
        match self.stack.pop() {
            None => {
                out.push((self.start, v));
                proof {
                    assert(self@ =~~= parser_feed_value(pre, v@).state);
                    assert(emitted_views(out@) =~= emitted_views(old(out)@) + parser_feed_value(
                        pre,
                        v@,
                    ).emitted);
                }
                Ok(())
            },
            Some(mut list) => {
                list.push(v);
                self.stack.push(list);
                proof {
                    assert(self@ =~~= parser_feed_value(pre, v@).state);
                    assert(emitted_views(out@) =~= emitted_views(old(out)@) + parser_feed_value(
                        pre,
                        v@,
                    ).emitted);
                }
                Ok(())
            },
        }
    }
}

impl DatumPipe for DatumParser {
    type Input = DatumToken;

    type Output = DatumValue;

    open spec fn pipe_step(
        pre: DatumParserStack,
        at: DatumOffset,
        i: Option<DatumTokenView>,
    ) -> PipeStep<DatumParserStack, DatumValueView> {
        parser_step(pre, at, i)
    }

    fn feed(&mut self, at: DatumOffset, i: Option<DatumToken>, out: &mut Vec<
        (DatumOffset, DatumValue),
    >) -> (r: DatumResult<()>) {
        let token = match i {
            None => {
                if self.stack.len() > 0 {
                    return Err(
                        DatumError {
                            kind: DatumErrorKind::Interrupted,
                            offset: at,
                            message: "parser: eof inside list",
                        },
                    );
                } else {
                    proof {
                        assert(emitted_views(final(out)@) =~= emitted_views(old(out)@)
                            + parser_step(old(self)@, at, opt_view(i)).emitted);
                    }
                    return Ok(());
                }
            },
            Some(t) => t,
        };
        if self.stack.len() == 0 {
            self.start = at;
        }
        let ghost step = parser_step(old(self)@, at, opt_view(i));
        let ghost mid = self@;
        match token.token_type() {
            DatumTokenType::ListStart => {
                self.stack.push(Vec::new());
                proof {
                    assert(self@ =~~= step.state);
                    assert(emitted_views(final(out)@) =~= emitted_views(old(out)@) + step.emitted);
                }
                Ok(())
            },
            DatumTokenType::ListEnd => {
                let res = self.stack.pop();
                match res {
                    Some(v) => {
                        proof {
                            assert(self@.1 =~= mid.1.drop_last());
                            assert(value_list_view(v@) == mid.1.last());
                        }
                        let fr = self.feed_value(DatumValue::List(v), out);
                        proof {
                            assert(self@ =~~= step.state);
                            assert(emitted_views(final(out)@) =~= emitted_views(old(out)@)
                                + step.emitted);
                        }
                        fr
                    },
                    None => Err(
                        DatumError {
                            kind: DatumErrorKind::BadData,
                            offset: at,
                            message: "parser: end of list while not in list",
                        },
                    ),
                }
            },
            _ => {
                match DatumAtom::try_from(token) {
                    Err(e) => Err(e),
                    Ok(a) => {
                        let fr = self.feed_value(DatumValue::Atom(a), out);
                        proof {
                            assert(self@ =~~= step.state);
                            assert(emitted_views(final(out)@) =~= emitted_views(old(out)@)
                                + step.emitted);
                        }
                        fr
                    },
                }
            },
        }
    }
}


/// The text a value writes through a writer, and the writer state left
/// behind: an atom with its spacing; a list as its start token, its elements
/// in order, and its end token.
pub open spec fn value_write_fold(w: DatumWriter, v: DatumValueView) -> (Seq<char>, DatumWriter)
    decreases v,
{
    match v {
        DatumValueView::Atom(a) => (
            whitespace_chars(w, false) + spec_atom_write(a),
            DatumWriter { indent: w.indent, state: DatumWriterState::AfterToken },
        ),
        DatumValueView::List(items) => {
            let opening = writer_token_chars(w, DatumTokenView::ListStart(0));
            let w1 = writer_state_after(w, DatumTokenType::ListStart);
            let (body, w2) = values_write_fold(w1, items);
            let closing = writer_token_chars(w2, DatumTokenView::ListEnd(0));
            (opening + body + closing, writer_state_after(w2, DatumTokenType::ListEnd))
        },
    }
}

/// The text a run of values writes through a writer, in order.
pub open spec fn values_write_fold(w: DatumWriter, items: Seq<DatumValueView>) -> (
    Seq<char>,
    DatumWriter,
)
    decreases items,
{
    if items.len() == 0 {
        (Seq::empty(), w)
    } else {
        let (body, w1) = values_write_fold(w, items.drop_last());
        let (last, w2) = value_write_fold(w1, items.last());
        (body + last, w2)
    }
}

impl DatumValue {
    /// Writes this value through the given writer: text that parses back to
    /// an equal value.
    pub fn write_to(&self, f: &mut Vec<char>, writer: &mut DatumWriter)
        ensures
            ({
                let (text, w2) = value_write_fold(*old(writer), self@);
                &&& final(f)@ == old(f)@ + text
                &&& *final(writer) == w2
            }),
        decreases *self,
    {
        match self {
            DatumValue::Atom(a) => {
                writer.write_atom(f, a);
            },
            DatumValue::List(items) => {
                let ghost w1 = writer_state_after(*old(writer), DatumTokenType::ListStart);
                let ghost views = value_list_view(items@);
                let opening = DatumToken::ListStart(0);
                writer.write_token(f, &opening);
                let ghost base = f@;
                let mut k: usize = 0;
                while k < items.len()
                    invariant
                        *self == DatumValue::List(*items),
                        k <= items@.len(),
                        views == value_list_view(items@),
                        f@ == base + values_write_fold(w1, views.take(k as int)).0,
                        *writer == values_write_fold(w1, views.take(k as int)).1,
                    decreases items@.len() - k,
                {
                    proof {
                        assert(decreases_to!(*self => self->List_0@[k as int]));
                    }
                    items[k].write_to(f, writer);
                    k = k + 1;
                    proof {
                        assert(views.take(k as int).drop_last() =~= views.take(k as int - 1));
                        assert(views.take(k as int).last() == items@[k - 1]@);
                        assert(f@ =~= base + values_write_fold(w1, views.take(k as int)).0);
                    }
                }
                proof {
                    assert(views.take(views.len() as int) =~= views);
                }
                let closing = DatumToken::ListEnd(0);
                writer.write_token(f, &closing);
                proof {
                    assert(f@ =~= old(f)@ + value_write_fold(*old(writer), self@).0);
                }
            },
        }
    }
}


impl DatumBoundedPipe for DatumParser {
    /// One token completes at most one value.
    open spec fn max_outputs_per_step() -> nat {
        1
    }

    proof fn lemma_output_bounded(
        pre: DatumParserStack,
        at: DatumOffset,
        i: Option<DatumTokenView>,
    ) {
    }
}

/// Retrieves a reference to the interior atom of a value, if it is one.
impl DatumValue {
    /// If this value is an atom, returns a reference to it, otherwise `None`.
    pub fn as_atom(&self) -> (r: Option<&DatumAtom>)
        ensures
            match r {
                Some(a) => self@ == DatumValueView::Atom(a@),
                None => self@ is List,
            },
    {
        match self {
            DatumValue::Atom(a) => Some(a),
            _ => None,
        }
    }
}

} // verus!
