//! The automatic-pagination engine: turns a page-fetching function into one
//! lazy, pull-driven sequence of items.
//!
//! The engine keeps a running offset, starting at zero. Each fetch asks the
//! source for `page_size` items at the current offset; the offset then
//! advances by the number of items actually received, so short pages stay in
//! step. The items of each page come out in order; a page without a
//! continuation marker ends the sequence, and a failed fetch surfaces as the
//! sequence's single terminal error. No fetch happens before the consumer
//! asks for an element that the already-fetched pages cannot supply.
//!
//! The decisions of that protocol stand in [`PagerState`], one verified step
//! per fetch outcome, so that every execution model shares them: the blocking
//! [`Paginator`] drives the steps itself, and a suspendable adapter may await
//! each fetch and hand the outcome to the same step function.
//!
//! A ghost log of fetch outcomes ties the executable state to the sequence's
//! history; the engine's laws are stated over such logs.

use crate::error::ClientError;
use vstd::arithmetic::div_mod::lemma_fundamental_div_mod_converse;
use vstd::prelude::*;

verus! {

/// One batch of a paginated collection: an ordered item list and an optional
/// continuation marker. An absent marker means no page follows this one.
pub struct Page<T> {
    pub items: Vec<T>,
    pub next: Option<String>,
}

/// Ghost record of one fetch outcome: the page the source returned, or the
/// error it failed with.
pub enum Fetched<T> {
    Page { items: Seq<T>, more: bool },
    Failed(ClientError),
}

/// The items a fetch outcome contributes to the sequence.
pub open spec fn fetched_items<T>(f: Fetched<T>) -> Seq<T> {
    match f {
        Fetched::Page { items, .. } => items,
        Fetched::Failed(_) => Seq::empty(),
    }
}

/// Whether a fetch outcome lets the engine continue: a page carrying a
/// continuation marker.
pub open spec fn continues<T>(f: Fetched<T>) -> bool {
    match f {
        Fetched::Page { more, .. } => more,
        Fetched::Failed(_) => false,
    }
}

/// All items of a fetch log, in emission order.
pub open spec fn flat<T>(log: Seq<Fetched<T>>) -> Seq<T>
    decreases log.len(),
{
    if log.len() == 0 {
        Seq::empty()
    } else {
        flat(log.drop_last()) + fetched_items(log.last())
    }
}

/// A log the engine can have produced: every outcome before the last one
/// allowed a further fetch.
pub open spec fn log_wf<T>(log: Seq<Fetched<T>>) -> bool {
    forall|i: int| 0 <= i < log.len() - 1 ==> continues(#[trigger] log[i])
}

/// Whether the engine will fetch again once the delivered items run out.
pub open spec fn log_live<T>(log: Seq<Fetched<T>>) -> bool {
    log.len() == 0 || continues(log.last())
}

/// The offset at which fetch number `i` of a log was issued: the count of
/// items received by the fetches before it.
pub open spec fn fetch_offset<T>(log: Seq<Fetched<T>>, i: int) -> int {
    flat(log.take(i)).len() as int
}

/// The log entry one fetch result leaves.
pub open spec fn entry_of<T>(r: Result<Page<T>, ClientError>) -> Fetched<T> {
    match r {
        Ok(p) => Fetched::Page { items: p.items@, more: p.next is Some },
        Err(e) => Fetched::Failed(e),
    }
}

/// What the engine asks of a page source: any call at the configured page
/// size may be made; a returned page holds at most `page_size` items (the
/// collaborator's invariant) and never reports items past the largest
/// representable offset.
pub open spec fn source_ok<T, F: Fn(u32, u32) -> Result<Page<T>, ClientError>>(
    req: F,
    page_size: u32,
) -> bool {
    &&& forall|off: u32| #[trigger] call_requires(req, (page_size, off))
    &&& forall|off: u32, r: Result<Page<T>, ClientError>|
        #[trigger] call_ensures(req, (page_size, off), r) ==> match r {
            Ok(p) => p.items@.len() <= page_size && off + p.items@.len() <= u32::MAX,
            Err(_) => true,
        }
}

/// Appending one outcome to a log appends exactly its items to the flattened
/// sequence.
pub proof fn lemma_flat_push<T>(log: Seq<Fetched<T>>, f: Fetched<T>)
    ensures
        flat(log.push(f)) == flat(log) + fetched_items(f),
{
    assert(log.push(f).drop_last() =~= log);
    assert(log.push(f).last() == f);
}

/// The decisions of the pagination protocol, one step per fetch outcome:
/// advance the offset by the count of items received, stop on an absent
/// continuation marker, stop on a failure. Every execution model drives this
/// same state machine — the blocking [`Paginator`] directly, a suspendable
/// adapter by awaiting each fetch and handing the outcome in.
pub struct PagerState<T> {
    /// Items already received from the source: the next fetch's offset.
    offset: u32,
    /// Whether a further fetch is due.
    live: bool,
    /// The fetch outcomes received so far.
    log: Ghost<Seq<Fetched<T>>>,
}

impl<T> PagerState<T> {
    /// The fetch outcomes this run has received so far.
    pub closed spec fn log(self) -> Seq<Fetched<T>> {
        self.log@
    }

    /// The offset the next fetch is due at: items received so far.
    pub closed spec fn at_offset(self) -> u32 {
        self.offset
    }

    /// Whether the run continues: no failure and no absent marker yet.
    pub closed spec fn live(self) -> bool {
        self.live
    }

    /// Well-formed run state: the executable fields are determined by a
    /// well-formed fetch log.
    pub closed spec fn wf(self) -> bool {
        &&& log_wf(self.log@)
        &&& self.live == log_live(self.log@)
        &&& self.offset == flat(self.log@).len()
        &&& flat(self.log@).len() <= u32::MAX
    }

    /// Starts one run, at offset zero with nothing fetched.
    pub fn start() -> (st: Self)
        ensures
            st.wf(),
            st.log() == Seq::<Fetched<T>>::empty(),
            st.at_offset() == 0,
            st.live(),
    {
        let st = PagerState { offset: 0, live: true, log: Ghost(Seq::empty()) };
        proof {
            assert(flat(st.log@) =~= Seq::<T>::empty());
        }
        st
    }

    /// The offset to fetch at next.
    pub fn offset(&self) -> (o: u32)
        ensures
            o == self.at_offset(),
    {
        self.offset
    }

    /// Whether a further fetch is due.
    pub fn is_live(&self) -> (b: bool)
        ensures
            b == self.live(),
    {
        self.live
    }

    /// Takes one step on a fetch outcome: records it, advances the offset by
    /// the exact count of items received (never by the nominal page size),
    /// and decides whether the run continues — it does if and only if the
    /// fetch returned a page with a continuation marker. The page's items
    /// come back out for emission, in order; an error comes back as the
    /// run's terminal element.
    pub fn on_fetch(&mut self, r: Result<Page<T>, ClientError>) -> (out: Result<
        Vec<T>,
        ClientError,
    >)
        requires
            old(self).wf(),
            old(self).live(),
            r matches Ok(p) ==> old(self).at_offset() + p.items@.len() <= u32::MAX,
        ensures
            final(self).wf(),
            final(self).log() == old(self).log().push(entry_of(r)),
            log_wf(final(self).log()),
            final(self).live() == continues(entry_of(r)),
            final(self).at_offset() == old(self).at_offset() + fetched_items(entry_of(r)).len(),
            out == match r {
                Ok(p) => Ok::<Vec<T>, ClientError>(p.items),
                Err(e) => Err::<Vec<T>, ClientError>(e),
            },
    {
        let ghost pre = *self;
        let ghost entry = entry_of(r);
        proof {
            lemma_flat_push(self.log@, entry);
        }
        let out = match r {
            Ok(page) => {
                let Page { items, next } = page;
                let n = items.len();
                self.log = Ghost(self.log@.push(entry));
                self.offset = self.offset + (n as u32);
                self.live = next.is_some();
                Ok(items)
            },
            Err(e) => {
                self.log = Ghost(self.log@.push(entry));
                self.live = false;
                proof {
                    assert(flat(pre.log@) + Seq::<T>::empty() =~= flat(pre.log@));
                }
                Err(e)
            },
        };
        proof {
            assert forall|i: int| 0 <= i < self.log@.len() - 1 implies continues(
                #[trigger] self.log@[i],
            ) by {
                if i < pre.log@.len() - 1 {
                    assert(continues(pre.log@[i]));
                } else {
                    assert(self.log@[i] == pre.log@.last());
                }
            }
        }
        out
    }
}

/// One element of the paginated sequence, as the consumer pulls it.
pub enum Pulled<T> {
    /// The next item of the collection.
    Item(T),
    /// A page fetch failed: this error is the sequence's terminal element.
    Failed(ClientError),
    /// A fetch returned an empty page that carries a continuation marker:
    /// nothing to deliver yet; pulling again fetches further.
    Pending,
    /// The sequence is over: no marker remained, no further fetch happens.
    Exhausted,
}

/// The pagination engine of the blocking model: a lazy, forward-only,
/// single-pass sequence of the items of all pages of one collection.
/// Consumed once; a fresh engine for the same source starts over from offset
/// zero.
pub struct Paginator<T, F> {
    /// The page source: `(page_size, offset)` to one page outcome.
    req: F,
    /// How many items each fetch asks for.
    page_size: u32,
    /// The run's decisions and fetch history.
    st: PagerState<T>,
    /// Received items not yet delivered, in order.
    buf: Vec<T>,
}

impl<T, F: Fn(u32, u32) -> Result<Page<T>, ClientError>> Paginator<T, F> {
    /// The fetch outcomes this engine has received so far.
    pub closed spec fn log(self) -> Seq<Fetched<T>> {
        self.st.log()
    }

    /// The page source the engine was started with.
    pub closed spec fn source(self) -> F {
        self.req
    }

    /// The configured page size.
    pub closed spec fn size(self) -> u32 {
        self.page_size
    }

    /// The offset the next fetch would be issued at: items received so far.
    pub closed spec fn at_offset(self) -> u32 {
        self.st.at_offset()
    }

    /// Count of items delivered to the consumer so far.
    pub closed spec fn delivered(self) -> int {
        flat(self.log()).len() - self.buf@.len()
    }

    /// The items delivered to the consumer so far, in order.
    pub closed spec fn emitted(self) -> Seq<T> {
        flat(self.log()).take(self.delivered())
    }

    /// Well-formed engine state: a well-formed run whose undelivered tail is
    /// buffered, over a source that meets the engine's expectations.
    pub closed spec fn wf(self) -> bool {
        &&& source_ok(self.req, self.page_size)
        &&& self.page_size >= 1
        &&& self.st.wf()
        &&& self.buf@.len() <= flat(self.st.log@).len()
        &&& self.buf@ == flat(self.st.log@).skip(self.delivered())
    }

    /// How one pull may extend the log: not at all, or by exactly one
    /// outcome the source can return when fetched at the current offset.
    pub open spec fn extended(pre: Self, post: Self) -> bool {
        ||| post.log() == pre.log()
        ||| exists|r: Result<Page<T>, ClientError>|
            {
                &&& #[trigger] call_ensures(pre.source(), (pre.size(), pre.at_offset()), r)
                &&& post.log() == pre.log().push(entry_of(r))
            }
    }
}

/// Starts the automatic pagination of one collection: the returned engine
/// pulls pages of `page_size` items from `req`, beginning at offset zero.
pub fn paginate<T, F: Fn(u32, u32) -> Result<Page<T>, ClientError>>(req: F, page_size: u32) -> (p:
    Paginator<T, F>)
    requires
        source_ok(req, page_size),
        page_size >= 1,
    ensures
        p.wf(),
        p.source() == req,
        p.size() == page_size,
        p.log() == Seq::<Fetched<T>>::empty(),
        log_wf(p.log()),
        p.emitted() == Seq::<T>::empty(),
        p.at_offset() == 0,
{
    let p = Paginator { req, page_size, st: PagerState::start(), buf: Vec::new() };
    proof {
        assert(p.buf@ =~= flat(p.st.log@).skip(0));
        assert(p.emitted() =~= Seq::<T>::empty());
    }
    p
}

impl<T, F: Fn(u32, u32) -> Result<Page<T>, ClientError>> Paginator<T, F> {
    /// Pulls the next element of the sequence. Buffered items are delivered
    /// first; at most one page fetch is performed per call, none while an
    /// item is still buffered, and none once the sequence has ended or
    /// failed.
    pub fn next(&mut self) -> (r: Pulled<T>)
        requires
            old(self).wf(),
        ensures
            final(self).wf(),
            final(self).source() == old(self).source(),
            final(self).size() == old(self).size(),
            Self::extended(*old(self), *final(self)),
            log_wf(final(self).log()),
            final(self).at_offset() == flat(final(self).log()).len(),
            final(self).emitted().len() <= flat(final(self).log()).len(),
            final(self).emitted() == flat(final(self).log()).take(
                final(self).emitted().len() as int,
            ),
            match r {
                Pulled::Item(t) => {
                    &&& final(self).emitted() == old(self).emitted().push(t)
                    &&& (old(self).delivered() < flat(old(self).log()).len() ==> final(self).log()
                        == old(self).log())
                },
                Pulled::Pending => {
                    &&& old(self).emitted() == flat(old(self).log())
                    &&& final(self).emitted() == old(self).emitted()
                    &&& final(self).log().len() == old(self).log().len() + 1
                    &&& flat(final(self).log()) == flat(old(self).log())
                    &&& log_live(final(self).log())
                },
                Pulled::Failed(e) => {
                    &&& old(self).emitted() == flat(old(self).log())
                    &&& final(self).emitted() == old(self).emitted()
                    &&& final(self).log() == old(self).log().push(Fetched::Failed(e))
                    &&& call_ensures(
                        old(self).source(),
                        (old(self).size(), old(self).at_offset()),
                        Result::<Page<T>, ClientError>::Err(e),
                    )
                },
                Pulled::Exhausted => {
                    &&& final(self).emitted() == old(self).emitted()
                    &&& final(self).emitted() == flat(final(self).log())
                    &&& !log_live(final(self).log())
                },
            },
    {
        let ghost pre = *self;
        if self.buf.len() > 0 {
            let t = self.buf.remove(0);
            proof {
                let fl = flat(self.st.log@);
                let d = pre.delivered();
                assert(self.buf@ =~= pre.buf@.skip(1));
                assert(pre.buf@[0] == fl.skip(d)[0]);
                assert(t == fl[d]);
                assert(self.buf@ =~= fl.skip(d + 1));
                assert(self.emitted() =~= fl.take(d + 1));
                assert(self.emitted() =~= pre.emitted().push(t));
            }
            return Pulled::Item(t);
        }
        if !self.st.is_live() {
            proof {
                assert(self.emitted() =~= flat(self.st.log@));
            }
            return Pulled::Exhausted;
        }
        let res = (self.req)(self.page_size, self.st.offset());
        let ghost gres = res;
        proof {
            assert(pre.emitted() =~= flat(pre.st.log@));
            assert(call_ensures(pre.source(), (pre.size(), pre.at_offset()), gres));
        }
        match self.st.on_fetch(res) {
            Err(e) => {
                proof {
                    lemma_flat_push(pre.st.log@, entry_of(gres));
                    assert(flat(self.st.log@) =~= flat(pre.st.log@));
                    assert(self.buf@ =~= flat(self.st.log@).skip(self.delivered()));
                    assert(self.emitted() =~= pre.emitted());
                    assert(self.log() == pre.log().push(entry_of(gres)));
                }
                Pulled::Failed(e)
            },
            Ok(items) => {
                self.buf = items;
                proof {
                    lemma_flat_push(pre.st.log@, entry_of(gres));
                    let fl = flat(self.st.log@);
                    let flo = flat(pre.st.log@);
                    assert(fl == flo + self.buf@);
                    assert(pre.delivered() == flo.len());
                    assert(self.buf@ =~= fl.skip(flo.len() as int));
                    assert(self.delivered() == pre.delivered());
                    assert(self.emitted() =~= pre.emitted());
                    assert(self.log() == pre.log().push(entry_of(gres)));
                }
                if self.buf.len() > 0 {
                    let t = self.buf.remove(0);
                    proof {
                        let fl = flat(self.st.log@);
                        let d = flat(pre.st.log@).len() as int;
                        assert(self.buf@ =~= fl.skip(d + 1));
                        assert(t == fl[d]);
                        assert(self.emitted() =~= fl.take(d + 1));
                        assert(self.emitted() =~= pre.emitted().push(t));
                    }
                    Pulled::Item(t)
                } else if self.st.is_live() {
                    Pulled::Pending
                } else {
                    proof {
                        assert(self.emitted() =~= flat(self.st.log@));
                    }
                    Pulled::Exhausted
                }
            },
        }
    }
}

/// A full page: exactly `page_size` items and a continuation marker.
pub open spec fn full_page<T>(f: Fetched<T>, page_size: int) -> bool {
    match f {
        Fetched::Page { items, more } => items.len() == page_size && more,
        Fetched::Failed(_) => false,
    }
}

/// Whether a fetch outcome is a failure.
pub open spec fn is_failure<T>(f: Fetched<T>) -> bool {
    match f {
        Fetched::Page { .. } => false,
        Fetched::Failed(_) => true,
    }
}

/// Over a log whose every outcome before the last is a full page, the item
/// count is determined by the page count and the last page's size.
proof fn lemma_flat_len_full_prefix<T>(log: Seq<Fetched<T>>, page_size: int)
    requires
        log.len() >= 1,
        forall|i: int| 0 <= i < log.len() - 1 ==> full_page(#[trigger] log[i], page_size),
    ensures
        flat(log).len() == (log.len() - 1) * page_size + fetched_items(log.last()).len(),
    decreases log.len(),
{
    let prefix = log.drop_last();
    if log.len() == 1 {
        assert(prefix.len() == 0);
        assert(flat(log) == flat(prefix) + fetched_items(log.last()));
    } else {
        assert(forall|i: int|
            0 <= i < prefix.len() - 1 ==> full_page(#[trigger] prefix[i], page_size));
        lemma_flat_len_full_prefix(prefix, page_size);
        assert(full_page(prefix.last(), page_size));
        assert(fetched_items(prefix.last()).len() == page_size);
        assert((log.len() - 2) * page_size + page_size == (log.len() - 1) * page_size)
            by (nonlinear_arith);
    }
}

/// A prefix of a log carries no more items than the whole log.
proof fn lemma_flat_take_len_le<T>(log: Seq<Fetched<T>>, i: int)
    requires
        0 <= i <= log.len(),
    ensures
        flat(log.take(i)).len() <= flat(log).len(),
    decreases log.len() - i,
{
    if i == log.len() {
        assert(log.take(i) =~= log);
    } else {
        assert(log.take(i + 1).drop_last() =~= log.take(i));
        assert(log.take(i + 1).last() == log[i]);
        assert(flat(log.take(i + 1)) == flat(log.take(i)) + fetched_items(log[i]));
        lemma_flat_take_len_le(log, i + 1);
    }
}

/// Law: a collection of N items served in full pages — every fetch before
/// the last returns exactly `page_size` items with a continuation marker,
/// the last returns the remaining `1..=page_size` items without one — costs
/// exactly ⌈N / page_size⌉ fetches, and the run's sequence (`flat`) carries
/// its N items in their original order.
pub proof fn lemma_full_pages_fetch_count<T>(log: Seq<Fetched<T>>, page_size: int)
    requires
        page_size >= 1,
        log.len() >= 1,
        forall|i: int| 0 <= i < log.len() - 1 ==> full_page(#[trigger] log[i], page_size),
        match log.last() {
            Fetched::Page { items, more } => !more && 1 <= items.len() <= page_size,
            Fetched::Failed(_) => false,
        },
    ensures
        log_wf(log),
        !log_live(log),
        log.len() == (flat(log).len() + page_size - 1) / page_size,
{
    lemma_flat_len_full_prefix(log, page_size);
    let n = flat(log).len() as int;
    let k = log.len() as int;
    let m = fetched_items(log.last()).len() as int;
    assert(n == (k - 1) * page_size + m);
    assert(n + page_size - 1 == k * page_size + (m - 1)) by (nonlinear_arith)
        requires
            n == (k - 1) * page_size + m,
    ;
    lemma_fundamental_div_mod_converse(n + page_size - 1, page_size, k, m - 1);
    assert forall|i: int| 0 <= i < log.len() - 1 implies continues(#[trigger] log[i]) by {
        assert(full_page(log[i], page_size));
    }
}

/// Law: the run's fetches walk the collection strictly forward: the first
/// fetch is at offset zero, and each later fetch at the previous fetch's
/// offset plus the count of items that fetch returned — never plus the
/// nominal page size, so short pages stay in step.
pub proof fn lemma_offset_advances_by_received<T>(log: Seq<Fetched<T>>, i: int)
    requires
        0 <= i < log.len(),
    ensures
        fetch_offset(log, 0) == 0,
        fetch_offset(log, i + 1) == fetch_offset(log, i) + fetched_items(log[i]).len(),
{
    assert(log.take(0) =~= Seq::<Fetched<T>>::empty());
    assert(log.take(i + 1).drop_last() =~= log.take(i));
    assert(log.take(i + 1).last() == log[i]);
    assert(flat(log.take(i + 1)) == flat(log.take(i)) + fetched_items(log[i]));
}

/// Law: a page with fewer than `page_size` items and no continuation marker
/// ends the run at once: it is the run's last fetch, and no fetch of the
/// run was issued at an offset beyond the collection's total item count.
pub proof fn lemma_short_page_ends_run<T>(log: Seq<Fetched<T>>, k: int, page_size: int)
    requires
        log_wf(log),
        0 <= k < log.len(),
        match log[k] {
            Fetched::Page { items, more } => items.len() < page_size && !more,
            Fetched::Failed(_) => false,
        },
    ensures
        log.len() == k + 1,
        !log_live(log),
        forall|i: int| 0 <= i <= k ==> fetch_offset(log, i) <= flat(log).len(),
{
    if k < log.len() - 1 {
        assert(continues(log[k]));
        assert(false);
    }
    assert(log.last() == log[k]);
    assert forall|i: int| 0 <= i <= k implies fetch_offset(log, i) <= flat(log).len() by {
        lemma_flat_take_len_le(log, i);
    }
}

/// Law: once a run is no longer live — its last fetch failed or came back
/// without a continuation marker — no well-formed log extends it: the
/// engine issues no further fetch.
pub proof fn lemma_dead_run_is_final<T>(log: Seq<Fetched<T>>, ext: Seq<Fetched<T>>)
    requires
        log.len() >= 1,
        !log_live(log),
        log_wf(ext),
        ext.len() >= log.len(),
        ext.take(log.len() as int) == log,
    ensures
        ext == log,
{
    if ext.len() > log.len() {
        let j = log.len() - 1;
        assert(ext.take(log.len() as int)[j] == ext[j]);
        assert(continues(ext[j]));
        assert(false);
    }
    assert(ext =~= ext.take(log.len() as int));
}

/// Law: a failed fetch is terminal: the run's sequence carries exactly the
/// items of the pages fetched before the failure, followed by that one
/// error, and no well-formed log extends the run past it.
pub proof fn lemma_failed_fetch_is_terminal<T>(log: Seq<Fetched<T>>, ext: Seq<Fetched<T>>)
    requires
        log.len() >= 1,
        is_failure(log.last()),
        log_wf(ext),
        ext.len() >= log.len(),
        ext.take(log.len() as int) == log,
    ensures
        flat(log) == flat(log.drop_last()),
        !log_live(log),
        ext == log,
{
    assert(flat(log) == flat(log.drop_last()) + fetched_items(log.last()));
    assert(flat(log.drop_last()) + Seq::<T>::empty() =~= flat(log.drop_last()));
    lemma_dead_run_is_final(log, ext);
}

} // verus!
