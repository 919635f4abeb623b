use vstd::prelude::*;
use crate::grouper::{group_records, groups_of};
use crate::record::{views_of, Record, Template};
use crate::sampler::{init_state, lemma_run_snoc, run_spec, Sampler};

verus! {

/// Offer a template sequence, first to last, to a fresh sampler of the
/// given capacity and seed, and hand back the final slots in slot order.
pub fn sample_templates<P>(templates: Vec<Template<P>>, capacity: usize, seed: u64) -> (out: Vec<
    Template<P>,
>)
    ensures
        views_of(out@) == run_spec(
            init_state::<P>(capacity as int, seed),
            views_of(templates@),
        ).slots,
{
    let ghost orig: Seq<Template<P>> = templates@;
    let ghost views: Seq<Seq<Record<P>>> = views_of(orig);
    proof {
        assert(views.len() == orig.len());
    }
    let mut rest = templates;
    let total: usize = rest.len();
    proof {
        assert(orig.len() == total as int);
    }
    let mut s: Sampler<P> = Sampler::new(capacity, seed);
    let ghost mut idx: int = 0;
    while rest.len() != 0
        invariant
            0 <= idx <= orig.len(),
            views.len() == orig.len(),
            views == views_of(orig),
            orig.len() <= usize::MAX,
            rest@ == orig.skip(idx),
            s.wf(),
            s@ == run_spec(init_state::<P>(capacity as int, seed), views.take(idx)),
            s@.seen == idx,
        decreases rest@.len(),
    {
        let t = rest.remove(0);
        proof {
            assert(t == orig[idx]);
            assert(rest@ =~= orig.skip(idx + 1));
            assert(t@ == views[idx]);
        }
        s.observe(t);
        proof {
            idx = idx + 1;
            assert(views.take(idx) =~= views.take(idx - 1).push(views[idx - 1]));
            lemma_run_snoc(
                init_state::<P>(capacity as int, seed),
                views.take(idx - 1),
                views[idx - 1],
            );
        }
    }
    proof {
        assert(views.take(idx) =~= views);
    }
    s.finalize()
}

/// Emitter: walk the sampled templates in slot order and hand out each
/// one's records in their original per-template order.
pub fn emit_records<P>(templates: Vec<Template<P>>) -> (out: Vec<Record<P>>)
    ensures
        out@ == views_of(templates@).flatten(),
{
    let ghost orig: Seq<Template<P>> = templates@;
    let ghost views: Seq<Seq<Record<P>>> = views_of(orig);
    proof {
        assert(views.len() == orig.len());
    }
    let mut rest = templates;
    let mut out: Vec<Record<P>> = Vec::new();
    let ghost mut idx: int = 0;
    while rest.len() != 0
        invariant
            0 <= idx <= orig.len(),
            views.len() == orig.len(),
            views == views_of(orig),
            rest@ == orig.skip(idx),
            out@ == views.take(idx).flatten(),
        decreases rest@.len(),
    {
        let t = rest.remove(0);
        proof {
            assert(t == orig[idx]);
            assert(rest@ =~= orig.skip(idx + 1));
            assert(t@ == views[idx]);
        }
        let mut rs = t.into_records();
        out.append(&mut rs);
        proof {
            idx = idx + 1;
            assert(views.take(idx) =~= views.take(idx - 1).push(views[idx - 1]));
            views.take(idx - 1).lemma_flatten_push(views[idx - 1]);
        }
    }
    proof {
        assert(views.take(idx) =~= views);
    }
    out
}

/// The whole single pass over an in-memory record sequence: group the
/// records into templates, reservoir-sample the templates with the given
/// capacity and seed, and emit the retained records. Records of
/// different templates may come out in another relative order than they
/// went in — a slot overwrite is in place — but each template's own
/// records stay in order.
pub fn sample_records<P>(records: Vec<Record<P>>, capacity: usize, seed: u64) -> (out: Vec<
    Record<P>,
>)
    ensures
        out@ == run_spec(
            init_state::<P>(capacity as int, seed),
            groups_of(records@),
        ).slots.flatten(),
{
    let templates = group_records(records);
    let sampled = sample_templates(templates, capacity, seed);
    emit_records(sampled)
}

} // verus!
