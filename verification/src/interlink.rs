//! The interlink token adapter and its matching machine.
//!
//! The machine watches the incoming token stream for the five-token pattern
//! `[`, `[`, identifier, `]`, `]` (each a separate text token), buffers
//! partial matches, and replaces a full match with a link triple whose
//! destination is `internal:` followed by the identifier. A token that
//! breaks a match flushes the buffered tokens, in arrival order, and is
//! passed through right after them, so an abandoned partial match never
//! reorders the stream; nothing more is pulled until the buffer is drained.

use vstd::prelude::*;
use pulldown_cmark::Parser;
use crate::tokens::Tok;
use crate::tokens::Token;

verus! {

/// The text content that the first two window slots require.
pub open spec fn open_bracket() -> Seq<char> {
    "["@
}

/// The text content that the last two window slots require.
pub open spec fn close_bracket() -> Seq<char> {
    "]"@
}

/// The window predicate: whether token `t` extends a partial match that
/// already holds `n` tokens. Slots 0 and 1 take exactly `[`, slot 2 takes any
/// text token (the identifier), slots 3 and 4 take exactly `]`. Only text
/// tokens are ever accepted.
pub open spec fn accepts(n: nat, t: Tok) -> bool {
    match t {
        Tok::Text(s) => {
            if n < 2 {
                s == open_bracket()
            } else if n == 2 {
                true
            } else if n < 5 {
                s == close_bracket()
            } else {
                false
            }
        },
        _ => false,
    }
}

/// The three tokens that replace a fully matched window whose identifier
/// slot holds `id`.
pub open spec fn substitution(id: Seq<char>) -> Seq<Tok> {
    seq![
        Tok::LinkStart("internal:"@ + id, Seq::<char>::empty()),
        Tok::Text(id),
        Tok::LinkEnd,
    ]
}

/// The identifier of a full window: the content of its middle token.
pub open spec fn window_id(w: Seq<Tok>) -> Seq<char> {
    match w[2] {
        Tok::Text(s) => s,
        _ => Seq::empty(),
    }
}

/// One step of the matching machine: the buffer after feeding token `t` to a
/// machine whose buffer is `b`. An accepted fifth token completes the window
/// and empties the buffer; a rejected token flushes it.
pub open spec fn step_buf(b: Seq<Tok>, t: Tok) -> Seq<Tok> {
    if accepts(b.len(), t) {
        if b.len() == 4 {
            Seq::empty()
        } else {
            b.push(t)
        }
    } else {
        Seq::empty()
    }
}

/// One step of the matching machine: the tokens emitted on feeding token `t`
/// to a machine whose buffer is `b`. An accepted fifth token emits the
/// substitution triple; a rejected token flushes the buffer in arrival order
/// and is emitted right after it, so an abandoned partial match never
/// reorders the stream; an accepted non-final token emits nothing.
pub open spec fn step_out(b: Seq<Tok>, t: Tok) -> Seq<Tok> {
    if accepts(b.len(), t) {
        if b.len() == 4 {
            substitution(window_id(b.push(t)))
        } else {
            Seq::empty()
        }
    } else {
        b.push(t)
    }
}

/// The machine's buffer after feeding the whole of `input`, starting empty.
pub open spec fn run_buf(input: Seq<Tok>) -> Seq<Tok>
    decreases input.len(),
{
    if input.len() == 0 {
        Seq::empty()
    } else {
        step_buf(run_buf(input.drop_last()), input.last())
    }
}

/// The tokens emitted while feeding the whole of `input`, starting empty.
pub open spec fn run_out(input: Seq<Tok>) -> Seq<Tok>
    decreases input.len(),
{
    if input.len() == 0 {
        Seq::empty()
    } else {
        run_out(input.drop_last()) + step_out(run_buf(input.drop_last()), input.last())
    }
}

/// The complete rewritten stream for `input`: everything the machine emits,
/// then the buffer drained in arrival order once the input ends.
pub open spec fn rewrite(input: Seq<Tok>) -> Seq<Tok> {
    run_out(input) + run_buf(input)
}

/// The shape every reachable buffer has: at most four tokens, all of them
/// text, the first two `[`, everything after the identifier slot `]`.
pub open spec fn window_shaped(b: Seq<Tok>) -> bool {
    &&& b.len() <= 4
    &&& forall|i: int| 0 <= i < b.len() ==> b[i] is Text
    &&& forall|i: int| 0 <= i < b.len() && i < 2 ==> b[i] == Tok::Text(open_bracket())
    &&& forall|i: int| 3 <= i < b.len() ==> b[i] == Tok::Text(close_bracket())
}

/// The matching machine's buffer is bounded and always holds a well-shaped
/// partial window: the adapter buffers at most four tokens between calls,
/// and only text tokens.
pub proof fn lemma_run_buf_shaped(input: Seq<Tok>)
    ensures
        window_shaped(run_buf(input)),
    decreases input.len(),
{
    if input.len() > 0 {
        lemma_run_buf_shaped(input.drop_last());
    }
}

/// The five-token form of an interlink with identifier `id`, as the
/// tokenizer hands it to the machine.
pub open spec fn interlink_window(id: Seq<char>) -> Seq<Tok> {
    seq![
        Tok::Text(open_bracket()),
        Tok::Text(open_bracket()),
        Tok::Text(id),
        Tok::Text(close_bracket()),
        Tok::Text(close_bracket()),
    ]
}

/// Whether the token at position `i` completes a full interlink window: the
/// four tokens before it have been buffered as a partial window and it is
/// the closing fifth.
pub open spec fn completes_window(input: Seq<Tok>, i: int) -> bool {
    run_buf(input.take(i)).len() == 4 && accepts(4, input[i])
}

/// Round-trip identity: an input in which no token completes an interlink
/// window — no `[`, `[`, identifier, `]`, `]` run is ever closed — is
/// rewritten to itself, token for token and in arrival order, and leaves
/// nothing behind in the buffer.
pub proof fn lemma_no_match_identity(input: Seq<Tok>)
    requires
        forall|i: int| 0 <= i < input.len() ==> !completes_window(input, i),
    ensures
        rewrite(input) == input,
    decreases input.len(),
{
    if input.len() == 0 {
        assert(rewrite(input) =~= input);
    } else {
        let p = input.drop_last();
        let t = input.last();
        assert forall|i: int| 0 <= i < p.len() implies !completes_window(p, i) by {
            assert(p.take(i) =~= input.take(i));
            assert(p[i] == input[i]);
            assert(!completes_window(input, i));
        }
        lemma_no_match_identity(p);
        assert(input.take(input.len() - 1) =~= p);
        assert(!completes_window(input, input.len() - 1));
        if accepts(run_buf(p).len(), t) {
            assert(run_buf(p).len() != 4);
            assert(rewrite(input) =~= run_out(p) + run_buf(p).push(t));
            assert(rewrite(input) =~= rewrite(p) + seq![t]);
        } else {
            assert(rewrite(input) =~= run_out(p) + run_buf(p).push(t));
            assert(rewrite(input) =~= rewrite(p) + seq![t]);
        }
        assert(rewrite(p) + seq![t] =~= input);
    }
}

/// Identity for bracket-free streams: an input in which no token is the text
/// `[` is rewritten to itself. (Nothing but a `[` text token is ever taken
/// into an empty buffer, so no window ever forms.)
pub proof fn lemma_identity_without_open_bracket(input: Seq<Tok>)
    requires
        forall|i: int| 0 <= i < input.len() ==> input[i] != Tok::Text(open_bracket()),
    ensures
        rewrite(input) == input,
        run_buf(input) == Seq::<Tok>::empty(),
    decreases input.len(),
{
    if input.len() == 0 {
        assert(rewrite(input) =~= input);
    } else {
        let p = input.drop_last();
        let t = input.last();
        lemma_identity_without_open_bracket(p);
        assert(!accepts(run_buf(p).len(), t));
        assert(step_out(run_buf(p), t) =~= seq![t]);
        assert(rewrite(input) =~= p + seq![t]);
        assert(rewrite(input) =~= input);
    }
}

/// The machine restarts cleanly: a stream that leaves the buffer empty can
/// be followed by anything, and the combined run is the two runs in
/// sequence.
pub proof fn lemma_restart(a: Seq<Tok>, b: Seq<Tok>)
    requires
        run_buf(a) == Seq::<Tok>::empty(),
    ensures
        run_buf(a + b) == run_buf(b),
        run_out(a + b) == run_out(a) + run_out(b),
    decreases b.len(),
{
    if b.len() == 0 {
        assert(a + b =~= a);
        assert(run_out(a) + run_out(b) =~= run_out(a));
    } else {
        let p = b.drop_last();
        lemma_restart(a, p);
        assert((a + b).drop_last() =~= a + p);
        assert((a + b).last() == b.last());
        assert(run_out(a + b) =~= run_out(a) + run_out(b));
    }
}

/// A lone interlink window is rewritten to exactly its substitution triple
/// and resolves completely.
pub proof fn lemma_window_match(id: Seq<char>)
    ensures
        run_buf(interlink_window(id)) == Seq::<Tok>::empty(),
        run_out(interlink_window(id)) == substitution(id),
{
    let w = interlink_window(id);
    let w0 = w.take(0);
    let w1 = w.take(1);
    let w2 = w.take(2);
    let w3 = w.take(3);
    let w4 = w.take(4);
    assert(w[0] == Tok::Text(open_bracket()));
    assert(w[1] == Tok::Text(open_bracket()));
    assert(w[2] == Tok::Text(id));
    assert(w[3] == Tok::Text(close_bracket()));
    assert(w[4] == Tok::Text(close_bracket()));
    assert(w0 =~= Seq::<Tok>::empty());
    assert(w1.drop_last() =~= w0 && w1.last() == w[0]);
    assert(w2.drop_last() =~= w1 && w2.last() == w[1]);
    assert(w3.drop_last() =~= w2 && w3.last() == w[2]);
    assert(w4.drop_last() =~= w3 && w4.last() == w[3]);
    assert(w.drop_last() =~= w4 && w.last() == w[4]);
    assert(run_buf(w0) == Seq::<Tok>::empty());
    assert(accepts(0, w[0]));
    assert(run_buf(w1) == step_buf(run_buf(w0), w[0]));
    assert(run_buf(w1) =~= seq![w[0]]);
    assert(accepts(1, w[1]));
    assert(run_buf(w2) == step_buf(run_buf(w1), w[1]));
    assert(run_buf(w2) =~= seq![w[0], w[1]]);
    assert(accepts(2, w[2]));
    assert(run_buf(w3) == step_buf(run_buf(w2), w[2]));
    assert(run_buf(w3) =~= seq![w[0], w[1], w[2]]);
    assert(accepts(3, w[3]));
    assert(run_buf(w4) == step_buf(run_buf(w3), w[3]));
    assert(run_buf(w4) =~= seq![w[0], w[1], w[2], w[3]]);
    assert(accepts(4, w[4]));
    assert(run_buf(w) == step_buf(run_buf(w4), w[4]));
    assert(run_buf(w) =~= Seq::<Tok>::empty());
    assert(window_id(run_buf(w4).push(w[4])) == id);
    assert(run_out(w0) == Seq::<Tok>::empty());
    assert(run_out(w1) == run_out(w0) + step_out(run_buf(w0), w[0]));
    assert(run_out(w1) =~= Seq::<Tok>::empty());
    assert(run_out(w2) == run_out(w1) + step_out(run_buf(w1), w[1]));
    assert(run_out(w2) =~= Seq::<Tok>::empty());
    assert(run_out(w3) == run_out(w2) + step_out(run_buf(w2), w[2]));
    assert(run_out(w3) =~= Seq::<Tok>::empty());
    assert(run_out(w4) == run_out(w3) + step_out(run_buf(w3), w[3]));
    assert(run_out(w4) =~= Seq::<Tok>::empty());
    assert(run_out(w) == run_out(w4) + step_out(run_buf(w4), w[4]));
    assert(run_out(w) =~= substitution(id));
}

/// The substitution contract: wherever the interlink window for `id` stands
/// after a prefix the machine has fully resolved, the rewritten stream is
/// the prefix's output, then exactly the link-start, text, link-end triple
/// for `id`, then the rewrite of the rest.
pub proof fn lemma_interlink_substitution(pre: Seq<Tok>, id: Seq<char>, post: Seq<Tok>)
    requires
        run_buf(pre) == Seq::<Tok>::empty(),
    ensures
        rewrite(pre + interlink_window(id) + post) == run_out(pre) + substitution(id)
            + rewrite(post),
{
    let w = interlink_window(id);
    lemma_window_match(id);
    lemma_restart(w, post);
    lemma_restart(pre, w + post);
    assert(pre + interlink_window(id) + post =~= pre + (w + post));
    assert(rewrite(pre + (w + post)) =~= run_out(pre) + substitution(id) + rewrite(post));
}

/// The first four window slots filled with identifier `id`: an interlink
/// still waiting for its second `]`.
pub open spec fn partial_window(id: Seq<char>) -> Seq<Tok> {
    seq![
        Tok::Text(open_bracket()),
        Tok::Text(open_bracket()),
        Tok::Text(id),
        Tok::Text(close_bracket()),
    ]
}

/// An unterminated interlink never becomes a link: when the four buffered
/// window tokens are followed by anything but the closing `]`, they flush in
/// arrival order with the breaking token after them, and the machine
/// restarts cleanly. With `id` the text `]` this is also the bare bracket
/// run `[`, `[`, `]`, `]` (an interlink whose identifier slot was taken by
/// the first closing bracket): no match, literal passthrough.
pub proof fn lemma_unterminated_flush(pre: Seq<Tok>, id: Seq<char>, t: Tok, post: Seq<Tok>)
    requires
        run_buf(pre) == Seq::<Tok>::empty(),
        !accepts(4, t),
    ensures
        rewrite(pre + partial_window(id) + seq![t] + post) == run_out(pre) + partial_window(id)
            + seq![t] + rewrite(post),
{
    let w = partial_window(id) + seq![t];
    let w0 = w.take(0);
    let w1 = w.take(1);
    let w2 = w.take(2);
    let w3 = w.take(3);
    let w4 = w.take(4);
    assert(w[0] == Tok::Text(open_bracket()));
    assert(w[1] == Tok::Text(open_bracket()));
    assert(w[2] == Tok::Text(id));
    assert(w[3] == Tok::Text(close_bracket()));
    assert(w[4] == t);
    assert(w0 =~= Seq::<Tok>::empty());
    assert(w1.drop_last() =~= w0 && w1.last() == w[0]);
    assert(w2.drop_last() =~= w1 && w2.last() == w[1]);
    assert(w3.drop_last() =~= w2 && w3.last() == w[2]);
    assert(w4.drop_last() =~= w3 && w4.last() == w[3]);
    assert(w.drop_last() =~= w4 && w.last() == t);
    assert(run_buf(w0) == Seq::<Tok>::empty());
    assert(accepts(0, w[0]));
    assert(run_buf(w1) == step_buf(run_buf(w0), w[0]));
    assert(run_buf(w1) =~= seq![w[0]]);
    assert(accepts(1, w[1]));
    assert(run_buf(w2) == step_buf(run_buf(w1), w[1]));
    assert(run_buf(w2) =~= seq![w[0], w[1]]);
    assert(accepts(2, w[2]));
    assert(run_buf(w3) == step_buf(run_buf(w2), w[2]));
    assert(run_buf(w3) =~= seq![w[0], w[1], w[2]]);
    assert(accepts(3, w[3]));
    assert(run_buf(w4) == step_buf(run_buf(w3), w[3]));
    assert(run_buf(w4) =~= seq![w[0], w[1], w[2], w[3]]);
    assert(run_buf(w) == step_buf(run_buf(w4), t));
    assert(run_buf(w) =~= Seq::<Tok>::empty());
    assert(run_out(w0) == Seq::<Tok>::empty());
    assert(run_out(w1) == run_out(w0) + step_out(run_buf(w0), w[0]));
    assert(run_out(w1) =~= Seq::<Tok>::empty());
    assert(run_out(w2) == run_out(w1) + step_out(run_buf(w1), w[1]));
    assert(run_out(w2) =~= Seq::<Tok>::empty());
    assert(run_out(w3) == run_out(w2) + step_out(run_buf(w2), w[2]));
    assert(run_out(w3) =~= Seq::<Tok>::empty());
    assert(run_out(w4) == run_out(w3) + step_out(run_buf(w3), w[3]));
    assert(run_out(w4) =~= Seq::<Tok>::empty());
    assert(run_out(w) == run_out(w4) + step_out(run_buf(w4), t));
    assert(run_out(w) =~= partial_window(id) + seq![t]);
    lemma_restart(w, post);
    lemma_restart(pre, w + post);
    assert(pre + partial_window(id) + seq![t] + post =~= pre + (w + post));
    assert(rewrite(pre + (w + post)) =~= run_out(pre) + partial_window(id) + seq![t] + rewrite(
        post,
    ));
}

/// pulldown_cmark's parser type, declared so that the adapter can own one;
/// the verifier treats it as opaque.
#[verifier::external_type_specification]
#[verifier::external_body]
pub struct ExParser<'input, 'callback>(Parser<'input, 'callback>);

/// The events a parser has still to yield, as token models: text events as
/// `Text` with their content, everything else as `Other`. pulldown_cmark's
/// parser walks its own pre-parsed tree, so this stream is a function of the
/// parser value alone.
pub uninterp spec fn parser_events(p: Parser) -> Seq<Tok>;

/// The token stream pulldown_cmark's tokenizer yields for a markdown text,
/// in the same model: parsing is deterministic, a function of the text
/// alone.
pub uninterp spec fn events_of_source(text: Seq<char>) -> Seq<Tok>;

/// Relies on pulldown_cmark's `Parser::next` (its `Iterator` impl, a fused
/// iterator): yields the head of the parser's remaining event stream and
/// advances it, or `None` once — and only once — the stream is exhausted,
/// after which it stays exhausted. A text event is carried over with its
/// content as an owned string; every other event is carried opaquely.
#[verifier::external_body]
fn pull_token<'input>(parser: &mut Parser<'input, 'input>) -> (r: Option<Token<'input>>)
    ensures
        parser_events(*old(parser)).len() == 0 ==> r is None,
        r is None ==> parser_events(*old(parser)).len() == 0 && parser_events(
            *final(parser),
        ).len() == 0,
        r matches Some(t) ==> {
            &&& parser_events(*old(parser)).len() > 0
            &&& t@ == parser_events(*old(parser))[0]
            &&& parser_events(*final(parser)) == parser_events(*old(parser)).drop_first()
            &&& (t@ is Text || t@ is Other)
        },
{
    match parser.next() {
        Some(pulldown_cmark::Event::Text(t)) => Some(Token::Text(t.into_string())),
        Some(e) => Some(Token::Other(e)),
        None => None,
    }
}

/// Relies on pulldown_cmark::Parser::new: builds the tokenizer for `text`.
/// Parsing is deterministic, so the event stream the parser will yield
/// depends on the text alone.
#[verifier::external_body]
fn parse_markdown<'input>(text: &'input str) -> (p: Parser<'input, 'input>)
    ensures
        parser_events(p) == events_of_source(text@),
{
    Parser::new(text)
}

/// The executable window predicate for a text token with content `s` against
/// a buffer that holds `n` tokens.
fn accepts_text(n: usize, s: &String) -> (r: bool)
    ensures
        r == accepts(n as nat, Tok::Text(s@)),
{
    if n < 2 {
        let b = "[".to_owned();
        *s == b
    } else if n == 2 {
        true
    } else if n < 5 {
        let b = "]".to_owned();
        *s == b
    } else {
        false
    }
}

/// An adapter over pulldown_cmark's parser that implements interlinks: the
/// five-token pattern `[`, `[`, identifier, `]`, `]` is collapsed into a
/// link-start, text, link-end triple whose destination is `internal:`
/// followed by the identifier; every other token passes through.
///
/// Each call of [`InterlinkParser::next`] returns the next token of the
/// rewritten stream. Pending buffered tokens drain first, in arrival order;
/// only with an empty buffer is the underlying tokenizer pulled again.
pub struct InterlinkParser<'input> {
    parser: Parser<'input, 'input>,
    store: Vec<Token<'input>>,
    done: bool,
    hist: Ghost<Seq<Tok>>,
    out: Ghost<Seq<Tok>>,
    src: Ghost<Seq<Tok>>,
}

impl<'input> InterlinkParser<'input> {
    /// All tokens pulled from the underlying tokenizer so far.
    pub closed spec fn taken(self) -> Seq<Tok> {
        self.hist@
    }

    /// All tokens handed to the caller so far.
    pub closed spec fn given(self) -> Seq<Tok> {
        self.out@
    }

    /// The pending buffer: tokens already pulled but not yet handed out,
    /// oldest first.
    pub closed spec fn pending(self) -> Seq<Tok> {
        self.store@.map_values(|t: Token<'input>| t@)
    }

    /// The tokens the underlying tokenizer has still to yield.
    pub closed spec fn remaining(self) -> Seq<Tok> {
        parser_events(self.parser)
    }

    /// The wrapped tokenizer's whole token stream, as it stood at
    /// construction.
    pub closed spec fn source(self) -> Seq<Tok> {
        self.src@
    }

    /// Whether the underlying tokenizer has reported end of input.
    pub closed spec fn at_end(self) -> bool {
        self.done
    }

    /// The adapter's invariant. What it has handed out, followed by what is
    /// still buffered, is exactly the machine's rewrite of what it has
    /// pulled; what it has pulled, followed by what the tokenizer still
    /// holds, is exactly the source stream it was built over; end of input
    /// is only ever reported once the tokenizer is truly exhausted; the
    /// buffer is bounded; and the matching buffer is empty whenever more
    /// input may still arrive (a partial window never survives a call
    /// boundary: it is either completed or flushed within one call).
    pub open spec fn inv(self) -> bool {
        &&& self.given() + self.pending() == run_out(self.taken()) + run_buf(self.taken())
        &&& self.taken() + self.remaining() == self.source()
        &&& self.at_end() ==> self.remaining().len() == 0
        &&& !self.at_end() ==> run_buf(self.taken()) == Seq::<Tok>::empty()
        &&& self.pending().len() <= 4
    }

    /// Wrap a markdown tokenizer. The adapter starts with an empty buffer
    /// and an empty history, and its source stream is the given tokenizer's.
    pub fn new(parser: Parser<'input, 'input>) -> (r: Self)
        ensures
            r.inv(),
            r.taken() == Seq::<Tok>::empty(),
            r.given() == Seq::<Tok>::empty(),
            r.pending() == Seq::<Tok>::empty(),
            !r.at_end(),
            r.source() == parser_events(parser),
    {
        let ghost pe = parser_events(parser);
        let r = InterlinkParser {
            parser,
            store: Vec::new(),
            done: false,
            hist: Ghost(Seq::empty()),
            out: Ghost(Seq::empty()),
            src: Ghost(pe),
        };
        proof {
            assert(r.pending() =~= Seq::<Tok>::empty());
            assert(r.given() + r.pending() =~= run_out(r.taken()) + run_buf(r.taken()));
            assert(r.taken() + r.remaining() =~= r.source());
        }
        r
    }

    /// The next token of the rewritten stream.
    ///
    /// If the buffer is non-empty, its oldest token is returned and nothing
    /// is pulled. Otherwise at most five tokens are pulled and matched,
    /// until one of: a completed window (the link-start of the substitution
    /// is returned, its text and link-end stay buffered), a breaking token
    /// (the buffered partial window flushes, oldest token returned first,
    /// the breaker queued behind it), or end of input (any buffered tokens
    /// drain first, then `None`). `None` therefore comes only at true end
    /// of input with an empty buffer, at which point everything handed out
    /// is exactly the machine's rewrite of the whole source stream.
    pub fn next(&mut self) -> (r: Option<Token<'input>>)
        requires
            old(self).inv(),
        ensures
            final(self).inv(),
            final(self).source() == old(self).source(),
            old(self).taken().is_prefix_of(final(self).taken()),
            final(self).taken().len() <= old(self).taken().len() + 5,
            old(self).at_end() ==> final(self).at_end() && final(self).taken() == old(
                self,
            ).taken(),
            old(self).pending().len() > 0 ==> {
                &&& final(self).taken() == old(self).taken()
                &&& final(self).at_end() == old(self).at_end()
                &&& r matches Some(t) && t@ == old(self).pending()[0]
                &&& final(self).pending() == old(self).pending().drop_first()
            },
            (match r {
                Some(t) => final(self).given() == old(self).given().push(t@),
                None => {
                    &&& final(self).given() == old(self).given()
                    &&& final(self).at_end()
                    &&& final(self).pending().len() == 0
                    &&& final(self).given() == rewrite(final(self).taken())
                    &&& final(self).taken() == final(self).source()
                },
            }),
            old(self).pending().len() == 0 ==> (match r {
                Some(t) => (t@ matches Tok::LinkStart(dest, title) ==> {
                    &&& dest.take("internal:"@.len() as int) == "internal:"@
                    &&& title == Seq::<char>::empty()
                    &&& final(self).pending() == seq![
                        Tok::Text(dest.skip("internal:"@.len() as int)),
                        Tok::LinkEnd,
                    ]
                }),
                None => true,
            }),
    {
        if self.store.len() > 0 {
            let t = self.store.remove(0);
            proof {
                self.out@ = self.out@.push(t@);
                assert(self.pending() =~= old(self).pending().drop_first());
                assert(self.given() + self.pending() =~= old(self).given() + old(
                    self,
                ).pending());
            }
            return Some(t);
        }
        if self.done {
            proof {
                assert(self.given() + self.pending() =~= self.given());
                assert(self.taken() + self.remaining() =~= self.taken());
            }
            return None;
        }
        proof {
            assert(self.given() =~= run_out(self.taken()) + run_buf(self.taken()));
            assert(self.given() =~= run_out(self.taken()));
        }
        loop
            invariant
                !self.done,
                !old(self).done,
                old(self).store@.len() == 0,
                self.store.len() <= 4,
                self.pending() == run_buf(self.taken()),
                self.out@ == run_out(self.taken()),
                self.out@ == old(self).out@,
                old(self).hist@.is_prefix_of(self.hist@),
                self.hist@.len() <= old(self).hist@.len() + self.store@.len(),
                self.src@ == old(self).src@,
                self.hist@ + parser_events(self.parser) == self.src@,
            decreases 5 - self.store.len(),
        {
            let n = self.store.len();
            let ghost pre_hist = self.hist@;
            let ghost pre_buf = run_buf(pre_hist);
            let ghost pre_events = parser_events(self.parser);
            match pull_token(&mut self.parser) {
                None => {
                    self.done = true;
                    proof {
                        lemma_run_buf_shaped(self.hist@);
                        assert(self.taken() + self.remaining() =~= self.taken());
                    }
                    if self.store.len() > 0 {
                        let first = self.store.remove(0);
                        proof {
                            self.out@ = self.out@.push(first@);
                            assert(first@ == pre_buf[0]);
                            assert(self.pending() =~= pre_buf.drop_first());
                            assert(self.given() + self.pending() =~= run_out(self.taken())
                                + run_buf(self.taken()));
                        }
                        return Some(first);
                    }
                    proof {
                        assert(self.pending() =~= Seq::<Tok>::empty());
                        assert(self.given() + self.pending() =~= self.given());
                        assert(self.given() =~= rewrite(self.taken()));
                    }
                    return None;
                },
                Some(t) => {
                    let ghost tv = t@;
                    proof {
                        self.hist@ = self.hist@.push(tv);
                        assert(self.hist@.drop_last() =~= pre_hist);
                        assert(run_buf(self.hist@) == step_buf(pre_buf, tv));
                        assert(run_out(self.hist@) == run_out(pre_hist) + step_out(
                            pre_buf,
                            tv,
                        ));
                        assert(self.hist@ + parser_events(self.parser) =~= pre_hist
                            + pre_events);
                    }
                    let take = match &t {
                        Token::Text(s) => accepts_text(n, s),
                        _ => false,
                    };
                    proof {
                        assert(take == accepts(n as nat, tv));
                        assert(pre_buf.len() == n as nat);
                    }
                    if take {
                        self.store.push(t);
                        proof {
                            assert(self.pending() =~= pre_buf.push(tv));
                        }
                        if self.store.len() == 5 {
                            let mid = self.store.remove(2);
                            proof {
                                lemma_run_buf_shaped(pre_hist);
                                assert(pre_buf.push(tv)[2] == pre_buf[2]);
                                assert(pre_buf[2] is Text);
                                assert(mid@ == pre_buf[2]);
                            }
                            match mid {
                                Token::Text(id) => {
                                    self.store.clear();
                                    let dest = String::from_str("internal:").concat(
                                        id.as_str(),
                                    );
                                    let title = String::new();
                                    self.store.push(Token::Text(id));
                                    self.store.push(Token::LinkEnd);
                                    let start = Token::LinkStart(dest, title);
                                    proof {
                                        self.out@ = self.out@.push(start@);
                                        assert(window_id(pre_buf.push(tv)) == mid@->Text_0);
                                        assert(self.pending() =~= seq![
                                            Tok::Text(mid@->Text_0),
                                            Tok::LinkEnd,
                                        ]);
                                        assert(self.given() + self.pending() =~= run_out(
                                            self.taken(),
                                        ) + run_buf(self.taken()));
                                        assert(("internal:"@ + mid@->Text_0).take(
                                            "internal:"@.len() as int,
                                        ) =~= "internal:"@);
                                        assert(("internal:"@ + mid@->Text_0).skip(
                                            "internal:"@.len() as int,
                                        ) =~= mid@->Text_0);
                                    }
                                    return Some(start);
                                },
                                _ => {
                                    proof {
                                        assert(false);
                                    }
                                    unreached()
                                },
                            }
                        }
                    } else {
                        self.store.push(t);
                        proof {
                            assert(self.pending() =~= pre_buf.push(tv));
                            assert(step_out(pre_buf, tv) == pre_buf.push(tv));
                            lemma_run_buf_shaped(pre_hist);
                        }
                        let first = self.store.remove(0);
                        proof {
                            self.out@ = self.out@.push(first@);
                            assert(first@ == pre_buf.push(tv)[0]);
                            assert(self.pending() =~= pre_buf.push(tv).drop_first());
                            assert(self.given() + self.pending() =~= run_out(self.taken())
                                + run_buf(self.taken()));
                        }
                        return Some(first);
                    }
                },
            }
        }
    }
}

/// The interlink adapter over pulldown_cmark's tokenizer for `text`. The
/// stream it rewrites is determined by the text alone.
pub fn adapter_for<'input>(text: &'input str) -> (r: InterlinkParser<'input>)
    ensures
        r.inv(),
        r.taken() == Seq::<Tok>::empty(),
        r.given() == Seq::<Tok>::empty(),
        r.pending() == Seq::<Tok>::empty(),
        !r.at_end(),
        r.source() == events_of_source(text@),
{
    InterlinkParser::new(parse_markdown(text))
}

/// Determinism: two adapters over the same source stream, each run to end
/// of input and fully drained, handed out the same rewritten stream — the
/// machine's rewrite of that source. In particular two adapters built over
/// the same text have the same source stream, so repeated fresh runs give
/// identical output.
pub proof fn lemma_deterministic(a: InterlinkParser, b: InterlinkParser)
    requires
        a.inv(),
        b.inv(),
        a.at_end(),
        b.at_end(),
        a.pending().len() == 0,
        b.pending().len() == 0,
        a.source() == b.source(),
    ensures
        a.given() == b.given(),
        a.given() == rewrite(a.source()),
{
    assert(a.taken() + a.remaining() =~= a.taken());
    assert(b.taken() + b.remaining() =~= b.taken());
    assert(a.given() + a.pending() =~= a.given());
    assert(b.given() + b.pending() =~= b.given());
}

} // verus!
