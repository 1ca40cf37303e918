//! The worker-to-dashboard event protocol: a strictly ordered stream
//! of typed progress events, produced by the worker context and
//! drained without blocking by the presentation context.

use vstd::prelude::*;
use vstd::string::*;
use crate::scan::{
    AssetKind, Asset, AssetInput, DiscoveredAsset, ProcessingOutcome, input_wf, input_fails,
    failure_message, success_view, sorted_rec, process_one, sort_records, lemma_filter_complement,
};

verus! {

/// The closed set of progress events. For one run: every `AssetFound`
/// precedes `ScanDone`; for each index, `Processing` precedes its
/// `Processed` or `Failed`; `Rendering` follows all of those; `Done`
/// or `Error` ends the stream.
pub enum Event {
    AssetFound { filename: String, kind: AssetKind },
    ScanDone { total: usize },
    Processing { index: usize },
    Processed { index: usize },
    Failed { index: usize, message: String },
    Rendering,
    Done { output: String, total: usize },
    Error { message: String },
}

/// The scan-phase announcement: one `AssetFound` per discovered asset,
/// in discovery order, then `ScanDone` with the total.
pub fn scan_events(assets: &Vec<DiscoveredAsset>) -> (ev: Vec<Event>)
    ensures
        ev@.len() == assets@.len() + 1,
        forall|k: int|
            0 <= k < assets@.len() ==> (#[trigger] ev@[k] matches Event::AssetFound {
                filename,
                kind,
            } && filename@ == assets@[k].name@ && kind == assets@[k].kind),
        (ev@[assets@.len() as int] matches Event::ScanDone { total } && total == assets@.len()),
{
    let n = assets.len();
    let mut ev: Vec<Event> = Vec::new();
    for k in 0..n
        invariant
            n == assets@.len(),
            ev@.len() == k,
            forall|x: int|
                0 <= x < k ==> (#[trigger] ev@[x] matches Event::AssetFound { filename, kind }
                    && filename@ == assets@[x].name@ && kind == assets@[x].kind),
    {
        ev.push(
            Event::AssetFound {
                filename: String::from_str(assets[k].name.as_str()),
                kind: assets[k].kind,
            },
        );
    }
    ev.push(Event::ScanDone { total: n });
    ev
}

/// The processing-phase stream of one sequential run: for each item,
/// `Processing` then its terminal event, in item order.
pub open spec fn seq_events_ok(ev: Seq<Event>, items: Seq<AssetInput>) -> bool {
    &&& ev.len() == 2 * items.len()
    &&& forall|k: int|
        0 <= k < items.len() ==> (#[trigger] ev[2 * k] matches Event::Processing { index }
            && index == k)
    &&& forall|k: int|
        0 <= k < items.len() && !input_fails(items[k]) ==> (#[trigger] ev[2 * k
            + 1] matches Event::Processed { index } && index == k)
    &&& forall|k: int|
        0 <= k < items.len() && input_fails(items[k]) ==> (#[trigger] ev[2 * k
            + 1] matches Event::Failed { index, message } && index == k && message@
            == failure_message(items[k]))
}

/// Processes the batch one item at a time in discovery order, emitting
/// the live event trace alongside the outcomes: records in natural
/// file-name order, messages in item order, counts conserved. The
/// items carry their discovery indices, densely from zero, so every
/// event names the same index that discovery assigned.
#[verifier::loop_isolation(false)]
pub fn process_sequential(items: &Vec<AssetInput>, gen_thumbnails: bool) -> (r: (
    Vec<Event>,
    Vec<Asset>,
    Vec<String>,
))
    requires
        forall|k: int| 0 <= k < items@.len() ==> input_wf(#[trigger] items@[k]),
        forall|k: int| 0 <= k < items@.len() ==> (#[trigger] items@[k]).index == k,
    ensures
        seq_events_ok(r.0@, items@),
        r.1@.len() + r.2@.len() == items@.len(),
        r.1@.len() == items@.filter(|it: AssetInput| !input_fails(it)).len(),
        r.2@.len() == items@.filter(|it: AssetInput| input_fails(it)).len(),
        sorted_rec(r.1@),
        r.1@.map_values(|a: Asset| a@).to_multiset() == items@.filter(
            |it: AssetInput| !input_fails(it),
        ).map_values(|it: AssetInput| success_view(it, gen_thumbnails)).to_multiset(),
        r.2@.map_values(|s: String| s@) == items@.filter(
            |it: AssetInput| input_fails(it),
        ).map_values(|it: AssetInput| failure_message(it)),
{
    let ghost pf = |it: AssetInput| input_fails(it);
    let ghost po = |it: AssetInput| !input_fails(it);
    let mut ev: Vec<Event> = Vec::new();
    let mut recs: Vec<Asset> = Vec::new();
    let mut errs: Vec<String> = Vec::new();
    let n = items.len();
    proof {
        reveal_with_fuel(Seq::<_>::filter, 2);
        assert(items@.take(0) =~= Seq::<AssetInput>::empty());
        assert(recs@.map_values(|a: Asset| a@) =~= items@.take(0).filter(po).map_values(
            |it: AssetInput| success_view(it, gen_thumbnails),
        ));
        assert(errs@.map_values(|s: String| s@) =~= items@.take(0).filter(pf).map_values(
            |it: AssetInput| failure_message(it),
        ));
    }
    for i in 0..n
        invariant
            n == items@.len(),
            ev@.len() == 2 * i,
            recs@.len() + errs@.len() == i,
            forall|k: int|
                0 <= k < i ==> (#[trigger] ev@[2 * k] matches Event::Processing { index } && index
                    == k),
            forall|k: int|
                0 <= k < i && !input_fails(items@[k]) ==> (#[trigger] ev@[2 * k
                    + 1] matches Event::Processed { index } && index == k),
            forall|k: int|
                0 <= k < i && input_fails(items@[k]) ==> (#[trigger] ev@[2 * k
                    + 1] matches Event::Failed { index, message } && index == k && message@
                    == failure_message(items@[k])),
            recs@.map_values(|a: Asset| a@) == items@.take(i as int).filter(po).map_values(
                |it: AssetInput| success_view(it, gen_thumbnails),
            ),
            errs@.map_values(|s: String| s@) == items@.take(i as int).filter(pf).map_values(
                |it: AssetInput| failure_message(it),
            ),
    {
        ev.push(Event::Processing { index: i });
        let outcome = process_one(&items[i], gen_thumbnails);
        proof {
            reveal_with_fuel(Seq::<_>::filter, 2);
            assert(items@.take(i + 1).drop_last() =~= items@.take(i as int));
            assert(items@.take(i + 1).last() == items@[i as int]);
        }
        match outcome {
            ProcessingOutcome::Success(a) => {
                ev.push(Event::Processed { index: i });
                let ghost rpre = recs@;
                recs.push(a);
                proof {
                    reveal_with_fuel(Seq::<_>::filter, 2);
                    assert(po(items@[i as int]));
                    assert(items@.take(i + 1).filter(po) =~= items@.take(i as int).filter(po).push(
                        items@[i as int],
                    ));
                    assert(items@.take(i + 1).filter(pf) =~= items@.take(i as int).filter(pf));
                    assert(recs@.map_values(|a: Asset| a@) =~~= rpre.map_values(
                        |a: Asset| a@,
                    ).push(a@));
                    assert(recs@.map_values(|a: Asset| a@) =~~= items@.take(i + 1).filter(
                        po,
                    ).map_values(|it: AssetInput| success_view(it, gen_thumbnails)));
                    assert(errs@.map_values(|s: String| s@) =~~= items@.take(i + 1).filter(
                        pf,
                    ).map_values(|it: AssetInput| failure_message(it)));
                }
            },
            ProcessingOutcome::Failure(m) => {
                proof {
                    assert(m@ == failure_message(items@[i as int]));
                }
                let m2 = String::from_str(m.as_str());
                ev.push(Event::Failed { index: i, message: m });
                let ghost epre = errs@;
                errs.push(m2);
                proof {
                    reveal_with_fuel(Seq::<_>::filter, 2);
                    assert(pf(items@[i as int]));
                    assert(items@.take(i + 1).filter(pf) =~= items@.take(i as int).filter(pf).push(
                        items@[i as int],
                    ));
                    assert(items@.take(i + 1).filter(po) =~= items@.take(i as int).filter(po));
                    assert(errs@.map_values(|s: String| s@) =~~= epre.map_values(
                        |s: String| s@,
                    ).push(m2@));
                    assert(errs@.map_values(|s: String| s@) =~~= items@.take(i + 1).filter(
                        pf,
                    ).map_values(|it: AssetInput| failure_message(it)));
                    assert(recs@.map_values(|a: Asset| a@) =~~= items@.take(i + 1).filter(
                        po,
                    ).map_values(|it: AssetInput| success_view(it, gen_thumbnails)));
                }
            },
        }
    }
    proof {
        assert(items@.take(n as int) =~= items@);
        lemma_filter_complement(items@, po, pf);
    }
    let sorted = sort_records(recs);
    (ev, sorted, errs)
}

/// In any stream of the shape `process_sequential` emits, each index
/// starts exactly once, finishes exactly once, and always starts
/// before it finishes.
pub proof fn lemma_event_stream_ordering(ev: Seq<Event>, items: Seq<AssetInput>)
    requires
        seq_events_ok(ev, items),
    ensures
        forall|p: int, q: int|
            0 <= p < ev.len() && 0 <= q < ev.len() && is_start(#[trigger] ev[p]) && is_start(
                #[trigger] ev[q],
            ) && start_index(ev[p]) == start_index(ev[q]) ==> p == q,
        forall|p: int, q: int|
            0 <= p < ev.len() && 0 <= q < ev.len() && is_finish(#[trigger] ev[p]) && is_finish(
                #[trigger] ev[q],
            ) && finish_index(ev[p]) == finish_index(ev[q]) ==> p == q,
        forall|p: int, q: int|
            0 <= p < ev.len() && 0 <= q < ev.len() && is_start(#[trigger] ev[p]) && is_finish(
                #[trigger] ev[q],
            ) && start_index(ev[p]) == finish_index(ev[q]) ==> p < q,
{
    assert forall|p: int| 0 <= p < ev.len() && is_start(ev[p]) implies p % 2 == 0 && start_index(
        ev[p],
    ) == p / 2 by {
        if p % 2 == 1 {
            let k = (p - 1) / 2;
            assert(ev[2 * k + 1] == ev[p]);
            if input_fails(items[k]) {
            } else {
            }
        } else {
            let k = p / 2;
            assert(ev[2 * k] == ev[p]);
        }
    }
    assert forall|p: int| 0 <= p < ev.len() && is_finish(ev[p]) implies p % 2 == 1 && finish_index(
        ev[p],
    ) == (p - 1) / 2 by {
        if p % 2 == 0 {
            let k = p / 2;
            assert(ev[2 * k] == ev[p]);
        } else {
            let k = (p - 1) / 2;
            assert(ev[2 * k + 1] == ev[p]);
            if input_fails(items[k]) {
            } else {
            }
        }
    }
}

/// A per-item start event.
pub open spec fn is_start(e: Event) -> bool {
    e is Processing
}

pub open spec fn start_index(e: Event) -> int {
    match e {
        Event::Processing { index } => index as int,
        _ => -1,
    }
}

/// A terminal per-item event: `Processed` or `Failed`.
pub open spec fn is_finish(e: Event) -> bool {
    e is Processed || e is Failed
}

pub open spec fn finish_index(e: Event) -> int {
    match e {
        Event::Processed { index } => index as int,
        Event::Failed { index, .. } => index as int,
        _ => -1,
    }
}

} // verus!

verus! {

/// The mathematical shadow of an `Event`.
pub ghost enum EventView {
    AssetFound { filename: Seq<char>, kind: AssetKind },
    ScanDone { total: usize },
    Processing { index: usize },
    Processed { index: usize },
    Failed { index: usize, message: Seq<char> },
    Rendering,
    Done { output: Seq<char>, total: usize },
    Error { message: Seq<char> },
}

impl View for Event {
    type V = EventView;

    open spec fn view(&self) -> EventView {
        match self {
            Event::AssetFound { filename, kind } => EventView::AssetFound {
                filename: filename@,
                kind: *kind,
            },
            Event::ScanDone { total } => EventView::ScanDone { total: *total },
            Event::Processing { index } => EventView::Processing { index: *index },
            Event::Processed { index } => EventView::Processed { index: *index },
            Event::Failed { index, message } => EventView::Failed {
                index: *index,
                message: message@,
            },
            Event::Rendering => EventView::Rendering,
            Event::Done { output, total } => EventView::Done { output: output@, total: *total },
            Event::Error { message } => EventView::Error { message: message@ },
        }
    }
}

} // verus!
