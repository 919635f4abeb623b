use vstd::prelude::*;
use crate::record::{uniform_key, views_of, Record, Template};

verus! {

/// One step of the grouping scan. `done` holds the completed groups,
/// `open_run` the run still accumulating. A record whose key matches the
/// open run (or any record when no run is open) is appended; otherwise
/// the open run is complete and a new run starts with the record.
pub open spec fn scan_step<P>(
    done: Seq<Seq<Record<P>>>,
    open_run: Seq<Record<P>>,
    r: Record<P>,
) -> (Seq<Seq<Record<P>>>, Seq<Record<P>>) {
    if open_run.len() == 0 || r.key@ == open_run[0].key@ {
        (done, open_run.push(r))
    } else {
        (done.push(open_run), seq![r])
    }
}

/// The grouping scan over a whole record sequence: the completed groups
/// together with the still-open run.
pub open spec fn scan_groups<P>(rs: Seq<Record<P>>) -> (Seq<Seq<Record<P>>>, Seq<Record<P>>)
    decreases rs.len(),
{
    if rs.len() == 0 {
        (Seq::empty(), Seq::empty())
    } else {
        let prev = scan_groups(rs.drop_last());
        scan_step(prev.0, prev.1, rs.last())
    }
}

/// The templates of a record sequence: its maximal contiguous
/// same-key runs, in input order, the final run included.
pub open spec fn groups_of<P>(rs: Seq<Record<P>>) -> Seq<Seq<Record<P>>> {
    let s = scan_groups(rs);
    if s.1.len() == 0 {
        s.0
    } else {
        s.0.push(s.1)
    }
}

/// Streaming grouper: consumes records one at a time and hands a
/// completed template back the moment a record with a different key
/// arrives. Its state is the single in-progress run. The input is
/// assumed grouped by key; a key that reappears non-contiguously is
/// silently split into several templates, as `groups_of` states.
pub struct Grouper<P> {
    run: Vec<Record<P>>,
}

impl<P> View for Grouper<P> {
    type V = Seq<Record<P>>;

    closed spec fn view(&self) -> Seq<Record<P>> {
        self.run@
    }
}

impl<P> Grouper<P> {
    /// The open run never mixes keys.
    pub open spec fn wf(&self) -> bool {
        uniform_key(self@)
    }

    pub fn new() -> (g: Grouper<P>)
        ensures
            g@ == Seq::<Record<P>>::empty(),
            g.wf(),
    {
        Grouper { run: Vec::new() }
    }

    /// Feed one record. Returns the completed template when `r` opens a
    /// new run, and nothing while the current run keeps growing.
    pub fn push(&mut self, r: Record<P>) -> (emitted: Option<Template<P>>)
        requires
            old(self).wf(),
        ensures
            final(self).wf(),
            ({
                let prev = old(self)@;
                match emitted {
                    Option::None => (prev.len() == 0 || r.key@ == prev[0].key@)
                        && final(self)@ == prev.push(r),
                    Option::Some(t) => prev.len() > 0 && r.key@ != prev[0].key@
                        && t@ == prev && t.wf() && final(self)@ == seq![r],
                }
            }),
    {
        if self.run.len() == 0 {
            self.run.push(r);
            None
        } else {
            let same = crate::record::same_key(&r.key, &self.run[0].key);
            if same {
                self.run.push(r);
                None
            } else {
                let done = self.run.split_off(0);
                self.run.push(r);
                proof {
                    assert(self.run@ =~= seq![r]);
                }
                Some(Template::new(done))
            }
        }
    }

    /// End of the stream: hand back the last open run, if any.
    pub fn finish(self) -> (emitted: Option<Template<P>>)
        requires
            self.wf(),
        ensures
            ({
                match emitted {
                    Option::None => self@.len() == 0,
                    Option::Some(t) => self@.len() > 0 && t@ == self@ && t.wf(),
                }
            }),
    {
        if self.run.len() == 0 {
            None
        } else {
            Some(Template::new(self.run))
        }
    }
}

/// Group a whole record sequence at once: every maximal contiguous
/// same-key run becomes one template, in input order.
pub fn group_records<P>(records: Vec<Record<P>>) -> (out: Vec<Template<P>>)
    ensures
        views_of(out@) == groups_of(records@),
        forall|i: int| 0 <= i < out@.len() ==> (#[trigger] out@[i]).wf(),
{
    let ghost orig: Seq<Record<P>> = records@;
    let mut rest = records;
    let mut g: Grouper<P> = Grouper::new();
    let mut out: Vec<Template<P>> = Vec::new();
    let ghost mut idx: int = 0;
    while rest.len() != 0
        invariant
            0 <= idx <= orig.len(),
            rest@ == orig.skip(idx),
            g.wf(),
            scan_groups(orig.take(idx)) == (views_of(out@), g@),
            forall|i: int| 0 <= i < out@.len() ==> (#[trigger] out@[i]).wf(),
        decreases rest@.len(),
    {
        let r = rest.remove(0);
        proof {
            assert(r == orig[idx]);
            assert(rest@ =~= orig.skip(idx + 1));
        }
        let ghost prev_views = views_of(out@);
        let ghost prev_run = g@;
        let emitted = g.push(r);
        match emitted {
            Option::Some(t) => { out.push(t); },
            Option::None => {},
        }
        proof {
            idx = idx + 1;
            assert(orig.take(idx).drop_last() =~= orig.take(idx - 1));
            assert(orig.take(idx).last() == orig[idx - 1]);
            assert(views_of(out@) =~= scan_step(prev_views, prev_run, r).0);
        }
    }
    proof {
        assert(orig.take(idx) =~= orig);
    }
    let last = g.finish();
    let ghost prev_views = views_of(out@);
    match last {
        Option::Some(t) => {
            out.push(t);
            proof {
                assert(views_of(out@) =~= groups_of(orig));
            }
        },
        Option::None => {
            proof {
                assert(prev_views =~= groups_of(orig));
            }
        },
    }
    out
}

/// Every group is non-empty and holds records of a single key.
pub open spec fn wf_groups<P>(gs: Seq<Seq<Record<P>>>) -> bool {
    forall|i: int| 0 <= i < gs.len() ==> (#[trigger] gs[i]).len() > 0 && uniform_key(gs[i])
}

/// The completed groups and the open run together hold exactly the
/// records scanned so far, in input order.
proof fn lemma_scan_flatten<P>(rs: Seq<Record<P>>)
    ensures
        scan_groups(rs).0.flatten() + scan_groups(rs).1 =~= rs,
    decreases rs.len(),
{
    if rs.len() == 0 {
        assert(scan_groups(rs).0.flatten() =~= Seq::<Record<P>>::empty());
    } else {
        lemma_scan_flatten(rs.drop_last());
        let prev = scan_groups(rs.drop_last());
        let r = rs.last();
        if prev.1.len() == 0 || r.key@ == prev.1[0].key@ {
            assert(scan_groups(rs).0 == prev.0);
            assert(scan_groups(rs).1 == prev.1.push(r));
            assert(prev.0.flatten() + prev.1.push(r) =~= (prev.0.flatten() + prev.1).push(r));
            assert(rs.drop_last().push(r) =~= rs);
        } else {
            prev.0.lemma_flatten_push(prev.1);
            assert(scan_groups(rs).0.flatten() + scan_groups(rs).1 =~= rs);
        }
    }
}

/// Law: grouping loses nothing and reorders nothing — the groups,
/// concatenated in order, are exactly the input records.
pub proof fn lemma_groups_flatten<P>(rs: Seq<Record<P>>)
    ensures
        groups_of(rs).flatten() == rs,
{
    lemma_scan_flatten(rs);
    let s = scan_groups(rs);
    if s.1.len() == 0 {
        assert(s.0.flatten() =~= rs);
    } else {
        s.0.lemma_flatten_push(s.1);
        assert(s.0.push(s.1).flatten() =~= rs);
    }
}

/// Law: grouping is idempotent. Grouping is a pure function of the
/// record sequence, so grouping the same sequence twice yields the same
/// boundaries both times; beyond that, laying a grouping's records back
/// out in order and grouping them again also reproduces the boundaries.
pub proof fn lemma_grouping_idempotent<P>(rs: Seq<Record<P>>)
    ensures
        groups_of(groups_of(rs).flatten()) == groups_of(rs),
{
    lemma_groups_flatten(rs);
}

proof fn lemma_scan_shape<P>(rs: Seq<Record<P>>)
    ensures
        wf_groups(scan_groups(rs).0),
        uniform_key(scan_groups(rs).1),
    decreases rs.len(),
{
    if rs.len() != 0 {
        lemma_scan_shape(rs.drop_last());
        let prev = scan_groups(rs.drop_last());
        let r = rs.last();
        if prev.1.len() == 0 || r.key@ == prev.1[0].key@ {
            let run = prev.1.push(r);
            assert forall|i: int| 0 <= i < run.len() implies (#[trigger] run[i]).key@
                == run[0].key@ by {
                if i < prev.1.len() {
                    assert(prev.1[i].key@ == prev.1[0].key@);
                }
            }
        } else {
            let gs = prev.0.push(prev.1);
            assert forall|i: int| 0 <= i < gs.len() implies (#[trigger] gs[i]).len() > 0
                && uniform_key(gs[i]) by {
                if i < prev.0.len() {
                    assert(prev.0[i].len() > 0 && uniform_key(prev.0[i]));
                }
            }
            assert(uniform_key(seq![r]));
        }
    }
}

/// Law: every template the grouping yields is a non-empty run of
/// records that all carry one key.
pub proof fn lemma_groups_shape<P>(rs: Seq<Record<P>>)
    ensures
        wf_groups(groups_of(rs)),
{
    lemma_scan_shape(rs);
    let s = scan_groups(rs);
    if s.1.len() != 0 {
        let gs = s.0.push(s.1);
        assert forall|i: int| 0 <= i < gs.len() implies (#[trigger] gs[i]).len() > 0
            && uniform_key(gs[i]) by {
            if i < s.0.len() {
                assert(s.0[i].len() > 0 && uniform_key(s.0[i]));
            }
        }
    }
}

/// Neighbouring groups always carry different keys.
pub open spec fn group_keys_separate<P>(gs: Seq<Seq<Record<P>>>) -> bool {
    forall|i: int| 0 <= i && i + 1 < gs.len() ==> (#[trigger] gs[i])[0].key@ != gs[i + 1][0].key@
}

proof fn lemma_scan_separation<P>(rs: Seq<Record<P>>)
    ensures
        group_keys_separate(scan_groups(rs).0),
        scan_groups(rs).1.len() == 0 ==> scan_groups(rs).0.len() == 0,
        scan_groups(rs).1.len() > 0 && scan_groups(rs).0.len() > 0
            ==> scan_groups(rs).0.last()[0].key@ != scan_groups(rs).1[0].key@,
    decreases rs.len(),
{
    if rs.len() != 0 {
        lemma_scan_separation(rs.drop_last());
        let prev = scan_groups(rs.drop_last());
        let r = rs.last();
        if prev.1.len() == 0 || r.key@ == prev.1[0].key@ {
            assert(prev.1.push(r).len() > 0);
            if prev.1.len() > 0 {
                assert(prev.1.push(r)[0] == prev.1[0]);
            }
        } else {
            let gs = prev.0.push(prev.1);
            assert forall|i: int| 0 <= i && i + 1 < gs.len() implies (#[trigger] gs[i])[0].key@
                != gs[i + 1][0].key@ by {
                if i + 1 < prev.0.len() {
                    assert(prev.0[i][0].key@ != prev.0[i + 1][0].key@);
                }
            }
            assert(gs.last() == prev.1);
            assert(seq![r][0] == r);
        }
    }
}

/// Law: the grouping yields maximal runs — neighbouring templates carry
/// different keys, so a contiguous same-key run is never split in two.
pub proof fn lemma_groups_separate<P>(rs: Seq<Record<P>>)
    ensures
        group_keys_separate(groups_of(rs)),
{
    lemma_scan_separation(rs);
    let s = scan_groups(rs);
    if s.1.len() != 0 {
        let gs = s.0.push(s.1);
        assert forall|i: int| 0 <= i && i + 1 < gs.len() implies (#[trigger] gs[i])[0].key@
            != gs[i + 1][0].key@ by {
            if i + 1 < s.0.len() {
                assert(s.0[i][0].key@ != s.0[i + 1][0].key@);
            }
        }
        assert(gs.last() == s.1);
    }
}

proof fn lemma_scan_append_run<P>(rs: Seq<Record<P>>, t: Seq<Record<P>>)
    requires
        t.len() > 0,
        uniform_key(t),
        rs.len() > 0 ==> t[0].key@ != rs.last().key@,
    ensures
        scan_groups(rs + t) == (groups_of(rs), t),
    decreases t.len(),
{
    if t.len() == 1 {
        assert((rs + t).drop_last() =~= rs);
        assert((rs + t).last() == t[0]);
        if rs.len() == 0 {
            assert(scan_groups(rs + t).1 =~= t);
            assert(groups_of(rs) =~= scan_groups(rs + t).0);
        } else {
            lemma_scan_separation(rs);
            lemma_scan_shape(rs);
            lemma_scan_flatten(rs);
            let prev = scan_groups(rs);
            assert(prev.0.flatten() + prev.1 == rs);
            assert(prev.1.len() > 0);
            assert(rs.last() == prev.1.last());
            assert(prev.1.last().key@ == prev.1[0].key@);
            assert(t[0].key@ != prev.1[0].key@);
            assert(scan_groups(rs + t).0 == prev.0.push(prev.1));
            assert(scan_groups(rs + t).1 =~= t);
        }
    } else {
        lemma_scan_append_run(rs, t.drop_last());
        assert((rs + t).drop_last() =~= rs + t.drop_last());
        assert((rs + t).last() == t.last());
        assert(t.last().key@ == t[0].key@);
        assert(t.drop_last()[0].key@ == t[0].key@);
        assert(t.drop_last().push(t.last()) =~= t);
    }
}

/// Appending one whole run of a fresh key to the input appends exactly
/// one group.
pub proof fn lemma_groups_append_run<P>(rs: Seq<Record<P>>, t: Seq<Record<P>>)
    requires
        t.len() > 0,
        uniform_key(t),
        rs.len() > 0 ==> t[0].key@ != rs.last().key@,
    ensures
        groups_of(rs + t) == groups_of(rs).push(t),
{
    lemma_scan_append_run(rs, t);
}

/// Law: the grouping decomposition is unique. Any way of cutting the
/// input into non-empty single-key pieces, neighbouring pieces with
/// different keys, that concatenates back to the input, is exactly
/// `groups_of` of it.
pub proof fn lemma_groups_unique<P>(rs: Seq<Record<P>>, gs: Seq<Seq<Record<P>>>)
    requires
        wf_groups(gs),
        group_keys_separate(gs),
        gs.flatten() == rs,
    ensures
        gs == groups_of(rs),
    decreases gs.len(),
{
    if gs.len() == 0 {
        assert(rs.len() == 0);
        assert(gs =~= groups_of(rs));
    } else {
        let pre = gs.drop_last();
        let last = gs.last();
        assert(gs =~= pre.push(last));
        pre.lemma_flatten_push(last);
        assert(rs =~= pre.flatten() + last);
        assert(wf_groups(pre)) by {
            assert forall|i: int| 0 <= i < pre.len() implies (#[trigger] pre[i]).len() > 0
                && uniform_key(pre[i]) by {
                assert(gs[i].len() > 0 && uniform_key(gs[i]));
            }
        }
        assert(group_keys_separate(pre)) by {
            assert forall|i: int| 0 <= i && i + 1 < pre.len() implies (#[trigger] pre[i])[0].key@
                != pre[i + 1][0].key@ by {
                assert(gs[i][0].key@ != gs[i + 1][0].key@);
            }
        }
        lemma_groups_unique(pre.flatten(), pre);
        if pre.flatten().len() > 0 {
            assert(pre.len() > 0) by {
                if pre.len() == 0 {
                    assert(pre.flatten() =~= Seq::<Record<P>>::empty());
                }
            }
            assert(pre.flatten().last() == pre.last().last()) by {
                pre.drop_last().lemma_flatten_push(pre.last());
                assert(pre =~= pre.drop_last().push(pre.last()));
                assert(pre.last().len() > 0);
            }
            assert(pre.last().last().key@ == pre.last()[0].key@) by {
                assert(uniform_key(pre.last()));
            }
            assert(last[0].key@ != pre.flatten().last().key@) by {
                assert(gs[pre.len() - 1][0].key@ != gs[pre.len() as int][0].key@);
            }
        }
        lemma_groups_append_run(pre.flatten(), last);
        assert(gs == groups_of(rs));
    }
}

} // verus!
