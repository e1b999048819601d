//! Request traces: the root span of a request, and the context its phases hang from.
use fastrace::collector::SpanContext;
use fastrace::Span;
use vstd::prelude::*;
use vstd::string::*;

verus! {

/// `fastrace::collector::SpanContext`: what a span is known by to its children.
#[verifier::external_type_specification]
#[verifier::external_body]
pub struct ExSpanContext(fastrace::collector::SpanContext);

/// `fastrace::Span`: a timed section of a trace, which ends when it is dropped.
#[verifier::external_type_specification]
#[verifier::external_body]
pub struct ExSpan(fastrace::Span);

/// `SpanContext::random` starts a trace under a random identifier. Nothing is promised
/// of the result: it is left to chance.
pub assume_specification[ SpanContext::random ]() -> SpanContext;

/// `Span::noop` makes a span that never records. Nothing else is promised of it.
pub assume_specification[ Span::noop ]() -> Span;

/// `SpanContext::from_span` gives the context of a span, and none of a span that never
/// records. A span that was begun records: the crate is built with its feature `enable`.
/// Which identifiers the context holds is left to chance.
pub assume_specification[ SpanContext::from_span ](span: &Span) -> (r: Option<SpanContext>)
    ensures
        never_records(*span) ==> r is None,
        records(*span) ==> r is Some,
;

/// `Span::root` begins a span of this name under a parent. Nothing is promised of the
/// result: it holds the time of the call.
#[verifier::external_body]
fn root_span(name: &'static str, parent: SpanContext) -> (span: Span) {
    Span::root(name, parent)
}

/// `Span::with_property` attaches a property to a span. Nothing is promised of the
/// result: a span shows nothing of what it records.
#[verifier::external_body]
fn with_property(span: Span, key: &'static str, value: String) -> (r: Span) {
    span.with_property(|| labelled(key, value))
}

/// A property of a span.
fn labelled(key: &'static str, value: String) -> (r: (&'static str, String))
    ensures
        r.0 == key,
        r.1 == value,
{
    (key, value)
}

/// A span that was made as one that never records.
pub open spec fn never_records(span: Span) -> bool {
    call_ensures(Span::noop, (), span)
}

/// A span that was begun under this name and this parent.
pub closed spec fn begun(name: &'static str, parent: SpanContext, span: Span) -> bool {
    call_ensures(root_span, (name, parent), span)
}

/// The span, with this property attached.
pub closed spec fn labels(span: Span, key: &'static str, value: String, r: Span) -> bool {
    call_ensures(with_property, (span, key, value), r)
}

/// A span that was begun, with or without a property attached.
pub closed spec fn records(span: Span) -> bool {
    ||| exists|name: &'static str, parent: SpanContext| #[trigger] begun(name, parent, span)
    ||| exists|name: &'static str, parent: SpanContext, bare: Span, key: &'static str, value: String|
        #[trigger] begun(name, parent, bare) && #[trigger] labels(bare, key, value, span)
}

/// A trace that was started under a random identifier.
pub open spec fn drawn(parent: SpanContext) -> bool {
    call_ensures(SpanContext::random, (), parent)
}

/// The context of a span.
pub open spec fn context_of(span: Span, context: Option<SpanContext>) -> bool {
    call_ensures(SpanContext::from_span, (&span,), context)
}

/// The root span of a request: with tracing on, the beginning of a new trace that
/// carries the request's id; with tracing off, a span that never records.
pub open spec fn opened(tracing: bool, request_id: Seq<char>, root: Span) -> bool {
    if tracing {
        exists|parent: SpanContext, bare: Span, value: String|
            #![trigger begun("request", parent, bare), labels(bare, "request_id", value, root)]
            drawn(parent) && begun("request", parent, bare) && labels(
                bare,
                "request_id",
                value,
                root,
            ) && value@ == request_id
    } else {
        never_records(root)
    }
}

/// Begins a span of this name under a parent.
pub fn begin(name: &'static str, parent: SpanContext) -> (span: Span)
    ensures
        begun(name, parent, span),
{
    let open = root_span;
    open(name, parent)
}

/// Opens the root span of a request. Where tracing is off it must be a span that never
/// records: any other would be kept and reported.
pub fn open_request(tracing: bool, request_id: &str) -> (root: Span)
    ensures
        opened(tracing, request_id@, root),
{
    if tracing {
        let draw = SpanContext::random;
        let parent = draw();
        let bare = begin("request", parent);
        let ghost plain = bare;
        let value = String::from_str(request_id);
        let ghost text = value;
        let label = with_property;
        let root = label(bare, "request_id", value);
        assert(begun("request", parent, plain) && labels(plain, "request_id", text, root));
        root
    } else {
        let noop = Span::noop;
        noop()
    }
}

/// The context that the phases of a request hang from.
pub fn parent_of(root: &Span) -> (parent: Option<SpanContext>)
    ensures
        context_of(*root, parent),
{
    let context = SpanContext::from_span;
    context(root)
}

/// A request carries a trace context exactly when tracing is on.
pub proof fn lemma_only_traced_requests_carry_a_context(
    tracing: bool,
    request_id: Seq<char>,
    root: Span,
    parent: Option<SpanContext>,
)
    requires
        opened(tracing, request_id, root),
        context_of(root, parent),
    ensures
        parent is Some <==> tracing,
{
}

} // verus!
