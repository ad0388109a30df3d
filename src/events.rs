use pulldown_cmark::{Event, Tag, TagEnd};
use vstd::prelude::*;

use crate::error::UwuError;
use crate::transform::{transform_model, transform_text};

verus! {

#[verifier::external_type_specification]
#[verifier::external_body]
pub struct ExEvent<'a>(Event<'a>);

#[verifier::external_type_specification]
#[verifier::external_body]
pub struct ExCmarkError(pulldown_cmark_to_cmark::Error);

/// One event of a parsed Markdown body: a literal run of text, the start or
/// the end of a code block, or any other event (structure, markup, inline
/// code, HTML, references), kept as parsed.
#[derive(Debug)]
pub enum Piece {
    Text(String),
    CodeBlockStart(Event<'static>),
    CodeBlockEnd(Event<'static>),
    Markup(Event<'static>),
}

/// The mathematical view of a [`Piece`].
pub enum PieceView {
    Text(Seq<char>),
    CodeBlockStart(Event<'static>),
    CodeBlockEnd(Event<'static>),
    Markup(Event<'static>),
}

impl View for Piece {
    type V = PieceView;

    open spec fn view(&self) -> PieceView {
        match self {
            Piece::Text(s) => PieceView::Text(s@),
            Piece::CodeBlockStart(e) => PieceView::CodeBlockStart(*e),
            Piece::CodeBlockEnd(e) => PieceView::CodeBlockEnd(*e),
            Piece::Markup(e) => PieceView::Markup(*e),
        }
    }
}

/// The views of a sequence of pieces.
pub open spec fn pieces_view(ps: Seq<Piece>) -> Seq<PieceView> {
    ps.map_values(|p: Piece| p@)
}

/// The events that `pulldown_cmark::Parser::new` yields for a Markdown body
/// (CommonMark, no extensions).
pub uninterp spec fn events_of(body: Seq<char>) -> Seq<PieceView>;

/// What `pulldown_cmark_to_cmark::cmark` renders from a sequence of events,
/// or `None` where it refuses them.
pub uninterp spec fn cmark_of(events: Seq<PieceView>) -> Option<Seq<char>>;

/// Relies on `pulldown_cmark::Parser::new`: the events of the body, in order,
/// as a function of the body alone. Text events become `Piece::Text`, and the
/// start and end events of code blocks get pieces of their own.
#[verifier::external_body]
fn parse_events(body: &str) -> (r: Vec<Piece>)
    ensures
        pieces_view(r@) == events_of(body@),
{
    let mut out = Vec::new();
    for event in pulldown_cmark::Parser::new(body) {
        out.push(match event {
            Event::Text(t) => Piece::Text(t.to_string()),
            Event::Start(Tag::CodeBlock(k)) => Piece::CodeBlockStart(
                Event::Start(Tag::CodeBlock(k)).into_static(),
            ),
            Event::End(TagEnd::CodeBlock) => Piece::CodeBlockEnd(Event::End(TagEnd::CodeBlock)),
            other => Piece::Markup(other.into_static()),
        });
    }
    out
}

/// Relies on `pulldown_cmark_to_cmark::cmark`: it writes the Markdown for the
/// events into a fresh string, as a function of the events alone.
#[verifier::external_body]
fn render_events(pieces: Vec<Piece>) -> (r: Result<String, pulldown_cmark_to_cmark::Error>)
    ensures
        match r {
            Ok(s) => cmark_of(pieces_view(pieces@)) == Some(s@),
            Err(_) => cmark_of(pieces_view(pieces@)) is None,
        },
{
    let mut events: Vec<Event<'static>> = Vec::new();
    for p in pieces {
        events.push(match p {
            Piece::Text(t) => Event::Text(t.into()),
            Piece::CodeBlockStart(e) | Piece::CodeBlockEnd(e) | Piece::Markup(e) => e,
        });
    }
    let mut buf = String::new();
    pulldown_cmark_to_cmark::cmark(events, &mut buf, pulldown_cmark::Options::empty()).map(|_| buf)
}

/// Whether the events `ps` leave the reader inside a code block.
pub open spec fn in_code(ps: Seq<PieceView>) -> bool
    decreases ps.len(),
{
    if ps.len() == 0 {
        false
    } else {
        match ps.last() {
            PieceView::CodeBlockStart(_) => true,
            PieceView::CodeBlockEnd(_) => false,
            _ => in_code(ps.drop_last()),
        }
    }
}

/// The outcome of rewriting a sequence of events: every text run outside a
/// code block is transformed, every other event is kept; the first failing
/// run decides the error.
pub open spec fn rewrite_model(ps: Seq<PieceView>) -> Result<Seq<PieceView>, UwuError>
    decreases ps.len(),
{
    if ps.len() == 0 {
        Ok(Seq::empty())
    } else {
        match rewrite_model(ps.drop_last()) {
            Err(e) => Err(e),
            Ok(pre) => match ps.last() {
                PieceView::Text(t) => if in_code(ps.drop_last()) {
                    Ok(pre.push(PieceView::Text(t)))
                } else {
                    match transform_model(t) {
                        Ok(u) => Ok(pre.push(PieceView::Text(u))),
                        Err(e) => Err(e),
                    }
                },
                other => Ok(pre.push(other)),
            },
        }
    }
}

/// The outcome of the whole pipeline on one Markdown body.
pub open spec fn section_model(body: Seq<char>) -> Result<Seq<char>, UwuError> {
    match rewrite_model(events_of(body)) {
        Err(e) => Err(e),
        Ok(q) => match cmark_of(q) {
            Some(s) => Ok(s),
            None => Err(UwuError::Serialize),
        },
    }
}

proof fn lemma_rewrite_err_extends(ps: Seq<PieceView>, i: int, e: UwuError)
    requires
        0 <= i <= ps.len(),
        rewrite_model(ps.take(i)) == Err::<Seq<PieceView>, UwuError>(e),
    ensures
        rewrite_model(ps) == Err::<Seq<PieceView>, UwuError>(e),
    decreases ps.len() - i,
{
    if i < ps.len() {
        assert(ps.take(i + 1).drop_last() =~= ps.take(i));
        lemma_rewrite_err_extends(ps, i + 1, e);
    } else {
        assert(ps.take(i) =~= ps);
    }
}

/// Transforms the text events outside code blocks and keeps all others, in
/// order.
pub fn rewrite(pieces: Vec<Piece>) -> (r: Result<Vec<Piece>, UwuError>)
    ensures
        match r {
            Ok(q) => rewrite_model(pieces_view(pieces@)) == Ok::<Seq<PieceView>, UwuError>(
                pieces_view(q@),
            ),
            Err(e) => rewrite_model(pieces_view(pieces@)) == Err::<Seq<PieceView>, UwuError>(e),
        },
{
    let ghost orig = pieces_view(pieces@);
    let mut work = pieces;
    let mut out: Vec<Piece> = Vec::new();
    let n = work.len();
    let mut i: usize = 0;
    let mut inside = false;
    assert(orig.take(0) =~= Seq::<PieceView>::empty());
    assert(pieces_view(out@) =~= Seq::<PieceView>::empty());
    while i < n
        invariant
            n == work@.len(),
            orig == pieces_view(pieces@),
            orig.len() == n,
            i <= n,
            forall|j: int| i <= j < n ==> #[trigger] work@[j]@ == orig[j],
            rewrite_model(orig.take(i as int)) == Ok::<Seq<PieceView>, UwuError>(
                pieces_view(out@),
            ),
            inside == in_code(orig.take(i as int)),
        decreases n - i,
    {
        assert(work@[i as int]@ == orig[i as int]);
        let mut p = Piece::Text(String::new());
        work.set_and_swap(i, &mut p);
        assert(orig.take(i + 1).drop_last() =~= orig.take(i as int));
        assert(orig.take(i + 1).last() == orig[i as int]);
        match p {
            Piece::Text(t) => {
                if inside {
                    out.push(Piece::Text(t));
                } else {
                    match transform_text(&t) {
                        Ok(u) => {
                            out.push(Piece::Text(u));
                        },
                        Err(e) => {
                            assert(orig[i as int] == PieceView::Text(t@));
                            assert(rewrite_model(orig.take(i + 1)) == Err::<
                                Seq<PieceView>,
                                UwuError,
                            >(e));
                            proof {
                                lemma_rewrite_err_extends(orig, i + 1, e);
                            }
                            return Err(e);
                        },
                    }
                }
            },
            Piece::CodeBlockStart(m) => {
                inside = true;
                out.push(Piece::CodeBlockStart(m));
            },
            Piece::CodeBlockEnd(m) => {
                inside = false;
                out.push(Piece::CodeBlockEnd(m));
            },
            Piece::Markup(m) => {
                out.push(Piece::Markup(m));
            },
        }
        i = i + 1;
        assert(pieces_view(out@) =~= rewrite_model(orig.take(i as int))->Ok_0);
        assert(inside == in_code(orig.take(i as int)));
    }
    assert(orig.take(n as int) =~= orig);
    Ok(out)
}

/// Rewrites one Markdown body: parse, transform the text events outside code
/// blocks, render.
pub fn uwuify(body: &str) -> (r: Result<String, UwuError>)
    ensures
        match r {
            Ok(s) => section_model(body@) == Ok::<Seq<char>, UwuError>(s@),
            Err(e) => section_model(body@) == Err::<Seq<char>, UwuError>(e),
        },
{
    let events = parse_events(body);
    let rewritten = match rewrite(events) {
        Ok(q) => q,
        Err(e) => return Err(e),
    };
    match render_events(rewritten) {
        Ok(s) => Ok(s),
        Err(_) => Err(UwuError::Serialize),
    }
}

/// Rewriting keeps the events in number and order: each non-text event, and
/// each text run inside a code block, comes out as it went in; every other
/// text run comes out as its transform.
pub proof fn lemma_rewrite_shape(ps: Seq<PieceView>)
    requires
        rewrite_model(ps) is Ok,
    ensures
        rewrite_model(ps)->Ok_0.len() == ps.len(),
        forall|i: int|
            0 <= i < ps.len() ==> match #[trigger] ps[i] {
                PieceView::Text(t) => if in_code(ps.take(i)) {
                    rewrite_model(ps)->Ok_0[i] == ps[i]
                } else {
                    transform_model(t) is Ok && rewrite_model(ps)->Ok_0[i] == PieceView::Text(
                        transform_model(t)->Ok_0,
                    )
                },
                _ => rewrite_model(ps)->Ok_0[i] == ps[i],
            },
    decreases ps.len(),
{
    if ps.len() > 0 {
        let pre = ps.drop_last();
        lemma_rewrite_shape(pre);
        let qs = rewrite_model(ps)->Ok_0;
        assert(ps.take(ps.len() - 1) =~= pre);
        assert forall|i: int| 0 <= i < ps.len() - 1 implies #[trigger] qs[i] == rewrite_model(
            pre,
        )->Ok_0[i] && ps[i] == pre[i] && ps.take(i) == pre.take(i) by {
            assert(ps.take(i) =~= pre.take(i));
        }
    }
}

proof fn lemma_code_only_identity(ps: Seq<PieceView>)
    requires
        forall|i: int| 0 <= i < ps.len() && #[trigger] ps[i] is Text ==> in_code(ps.take(i)),
    ensures
        rewrite_model(ps) == Ok::<Seq<PieceView>, UwuError>(ps),
    decreases ps.len(),
{
    if ps.len() > 0 {
        let pre = ps.drop_last();
        assert forall|i: int| 0 <= i < pre.len() && #[trigger] pre[i] is Text implies in_code(
            pre.take(i),
        ) by {
            assert(pre[i] == ps[i]);
            assert(pre.take(i) =~= ps.take(i));
        }
        lemma_code_only_identity(pre);
        assert(ps.take(ps.len() - 1) =~= pre);
        assert(pre.push(ps.last()) =~= ps);
    } else {
        assert(ps =~= Seq::<PieceView>::empty());
    }
}

/// A body whose text runs all lie inside code blocks (a lone code block, say)
/// is rendered from its own events, untouched by the transform.
pub proof fn lemma_code_only_passthrough(body: Seq<char>)
    requires
        forall|i: int|
            0 <= i < events_of(body).len() && #[trigger] events_of(body)[i] is Text ==> in_code(
                events_of(body).take(i),
            ),
    ensures
        rewrite_model(events_of(body)) == Ok::<Seq<PieceView>, UwuError>(events_of(body)),
        section_model(body) == match cmark_of(events_of(body)) {
            Some(s) => Ok::<Seq<char>, UwuError>(s),
            None => Err(UwuError::Serialize),
        },
{
    lemma_code_only_identity(events_of(body));
}

} // verus!
