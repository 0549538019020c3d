//! Interceptors: what runs around the handler of a unary RPC, or around its
//! transport.
//!
//! An interceptor gets the method path, the payload (without framing), the
//! metadata and what comes next, which it may call or not. Both sides of an RPC
//! chain theirs the same way: the first interceptor is the outermost.

use vstd::prelude::*;
use vstd::string::*;

verus! {

/// Whether `links` may come of wrapping `terminal` in the interceptors, the last one
/// first: they hold what is next at each position, from the whole chain to the
/// terminal itself.
pub open spec fn is_chain<I, N, W: Fn(&I, String, N) -> N>(
    interceptors: Seq<I>,
    method: Seq<char>,
    terminal: N,
    wrap: W,
    links: Seq<N>,
) -> bool {
    &&& links.len() == interceptors.len() + 1
    &&& links.last() == terminal
    &&& forall|i: int|
        0 <= i < interceptors.len() ==> is_link(
            interceptors[i],
            method,
            links[i + 1],
            wrap,
            #[trigger] links[i],
        )
}

/// Whether `link` may come of wrapping `next` in one interceptor.
pub open spec fn is_link<I, N, W: Fn(&I, String, N) -> N>(
    interceptor: I,
    method: Seq<char>,
    next: N,
    wrap: W,
    link: N,
) -> bool {
    exists|m: String| m@ == method && #[trigger] call_ensures(wrap, (&interceptor, m, next), link)
}

/// Chains interceptors around `terminal`.
///
/// `wrap` makes one interceptor and what comes next into what comes next for the
/// interceptor outside it. `interceptors[0]` is the outermost.
fn chain<I, N, W: Fn(&I, String, N) -> N>(
    interceptors: &[I],
    method: &str,
    terminal: N,
    wrap: W,
) -> (r: N)
    requires
        forall|i: int, m: String, next: N|
            0 <= i < interceptors@.len() ==> #[trigger] call_requires(
                wrap,
                (&interceptors@[i], m, next),
            ),
    ensures
        exists|links: Seq<N>| #[trigger]
            is_chain(interceptors@, method@, terminal, wrap, links) && links[0] == r,
{
    let mut next = terminal;
    let mut i: usize = interceptors.len();
    let ghost mut links = seq![terminal];
    while i > 0
        invariant
            i <= interceptors@.len(),
            forall|i: int, m: String, next: N|
                0 <= i < interceptors@.len() ==> #[trigger] call_requires(
                    wrap,
                    (&interceptors@[i], m, next),
                ),
            links.len() == interceptors@.len() - i + 1,
            links[0] == next,
            links.last() == terminal,
            forall|k: int|
                0 <= k < links.len() - 1 ==> is_link(
                    interceptors@[i + k],
                    method@,
                    links[k + 1],
                    wrap,
                    #[trigger] links[k],
                ),
        decreases i,
    {
        i -= 1;
        let m = method.to_owned();
        let ghost inner = next;
        next = wrap(&interceptors[i], m, next);
        proof {
            assert(is_link(interceptors@[i as int], method@, inner, wrap, next));
            let before = links;
            links = seq![next] + before;
            assert forall|k: int| 0 <= k < links.len() - 1 implies is_link(
                interceptors@[i + k],
                method@,
                links[k + 1],
                wrap,
                #[trigger] links[k],
            ) by {
                if k > 0 {
                    assert(links[k] == before[k - 1]);
                    assert(links[k + 1] == before[k]);
                }
            }
        }
    }
    assert(is_chain(interceptors@, method@, terminal, wrap, links));
    next
}

/// Chains the interceptors of a server around a handler. `interceptors[0]` runs
/// first, the handler is innermost.
pub fn chain_server<I, N, W: Fn(&I, String, N) -> N>(
    interceptors: &[I],
    method: &str,
    handler: N,
    wrap: W,
) -> (r: N)
    requires
        forall|i: int, m: String, next: N|
            0 <= i < interceptors@.len() ==> #[trigger] call_requires(
                wrap,
                (&interceptors@[i], m, next),
            ),
    ensures
        exists|links: Seq<N>| #[trigger]
            is_chain(interceptors@, method@, handler, wrap, links) && links[0] == r,
{
    chain(interceptors, method, handler, wrap)
}

/// Chains the interceptors of a client around the transport. `interceptors[0]`
/// runs first, the transport is innermost.
pub fn chain_client<I, N, W: Fn(&I, String, N) -> N>(
    interceptors: &[I],
    method: &str,
    invoker: N,
    wrap: W,
) -> (r: N)
    requires
        forall|i: int, m: String, next: N|
            0 <= i < interceptors@.len() ==> #[trigger] call_requires(
                wrap,
                (&interceptors@[i], m, next),
            ),
    ensures
        exists|links: Seq<N>| #[trigger]
            is_chain(interceptors@, method@, invoker, wrap, links) && links[0] == r,
{
    chain(interceptors, method, invoker, wrap)
}

/// Without interceptors the chain is the handler itself.
pub proof fn law_empty_chain_is_the_handler<I, N, W: Fn(&I, String, N) -> N>(
    method: Seq<char>,
    handler: N,
    wrap: W,
    links: Seq<N>,
)
    requires
        is_chain(Seq::<I>::empty(), method, handler, wrap, links),
    ensures
        links[0] == handler,
{
}

/// The first interceptor is the outermost: the chain is the first interceptor
/// wrapped around the chain of the others.
pub proof fn law_first_interceptor_is_outermost<I, N, W: Fn(&I, String, N) -> N>(
    interceptors: Seq<I>,
    method: Seq<char>,
    handler: N,
    wrap: W,
    links: Seq<N>,
)
    requires
        interceptors.len() > 0,
        is_chain(interceptors, method, handler, wrap, links),
    ensures
        is_chain(interceptors.skip(1), method, handler, wrap, links.skip(1)),
        is_link(interceptors[0], method, links.skip(1)[0], wrap, links[0]),
{
    let rest = links.skip(1);
    let others = interceptors.skip(1);
    assert(is_link(interceptors[0], method, links[1], wrap, links[0]));
    assert forall|i: int| 0 <= i < others.len() implies is_link(
        others[i],
        method,
        rest[i + 1],
        wrap,
        #[trigger] rest[i],
    ) by {
        assert(rest[i] == links[i + 1]);
        assert(others[i] == interceptors[i + 1]);
    }
}

/// Whether `r` is what comes of wrapping `inner` in each interceptor in turn, the last one
/// first, every one with the method path.
pub open spec fn is_wrapped<I, N, W: Fn(&I, String, N) -> N>(
    interceptors: Seq<I>,
    method: Seq<char>,
    inner: N,
    wrap: W,
    r: N,
) -> bool
    decreases interceptors.len(),
{
    if interceptors.len() == 0 {
        r == inner
    } else {
        exists|m: String, next: N|
            {
                &&& m@ == method
                &&& #[trigger] call_ensures(wrap, (&interceptors.last(), m, inner), next)
                &&& is_wrapped(interceptors.drop_last(), method, next, wrap, r)
            }
    }
}

/// A chain that is linked from end to end is one that was wrapped from the inside out.
proof fn lemma_chain_is_wrapped<I, N, W: Fn(&I, String, N) -> N>(
    interceptors: Seq<I>,
    method: Seq<char>,
    inner: N,
    wrap: W,
    links: Seq<N>,
)
    requires
        is_chain(interceptors, method, inner, wrap, links),
    ensures
        is_wrapped(interceptors, method, inner, wrap, links[0]),
    decreases interceptors.len(),
{
    if interceptors.len() > 0 {
        let last = interceptors.len() - 1;
        let front = interceptors.drop_last();
        let rest = links.drop_last();
        assert(is_link(interceptors[last], method, links[last + 1], wrap, links[last]));
        assert(links[last + 1] == inner);
        assert forall|i: int| 0 <= i < front.len() implies is_link(
            front[i],
            method,
            rest[i + 1],
            wrap,
            #[trigger] rest[i],
        ) by {
            assert(rest[i] == links[i]);
            assert(is_link(interceptors[i], method, links[i + 1], wrap, links[i]));
        }
        lemma_chain_is_wrapped(front, method, rest.last(), wrap, rest);
        let m = choose|m: String| m@ == method && #[trigger]
            call_ensures(wrap, (&interceptors[last], m, inner), links[last]);
        assert(call_ensures(wrap, (&interceptors.last(), m, inner), rest.last()));
    }
}

/// On both sides, every interceptor is wrapped around what comes after it, exactly once and
/// with the method path: the last around the handler or the transport, the first around all
/// the others. Without interceptors nothing is wrapped.
pub proof fn law_every_interceptor_is_wrapped_around_the_next<I, N, W: Fn(&I, String, N) -> N>(
    interceptors: &[I],
    method: &str,
    inner: N,
    wrap: W,
    r: N,
)
    ensures
        call_ensures(chain_server::<I, N, W>, (interceptors, method, inner, wrap), r)
            ==> is_wrapped(interceptors@, method@, inner, wrap, r),
        call_ensures(chain_client::<I, N, W>, (interceptors, method, inner, wrap), r)
            ==> is_wrapped(interceptors@, method@, inner, wrap, r),
{
    if exists|links: Seq<N>| #[trigger]
        is_chain(interceptors@, method@, inner, wrap, links) && links[0] == r {
        let links = choose|links: Seq<N>| #[trigger]
            is_chain(interceptors@, method@, inner, wrap, links) && links[0] == r;
        lemma_chain_is_wrapped(interceptors@, method@, inner, wrap, links);
    }
}

} // verus!
