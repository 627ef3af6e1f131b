//! The library's laws: what the duplicate-access tracker guarantees per
//! function scope, and why a run's diagnostics do not depend on how the
//! files are scheduled over workers.

use vstd::prelude::*;

use crate::pipeline::{SourceFile, run_diag_multiset, tagged_file_diags};
use crate::records::{DiagView, NameToken, RawMatch};
use crate::tracker::{
    ScopeModel, canonical_name, empty_scope, enclosing_token, match_ancestors, scope_at,
    spec_diags, track_state, track_step,
};

verus! {

/// The access one match contributes to the scope keyed `k`: its canonical
/// name and the enclosing function's name token, or nothing when the match
/// is discarded or belongs to another scope.
pub open spec fn scope_access(m: RawMatch, k: int) -> Option<(Seq<char>, NameToken)> {
    match canonical_name(m) {
        Option::None => Option::None,
        Option::Some(name) => match enclosing_token(match_ancestors(m)) {
            Option::None => Option::None,
            Option::Some(tok) => if tok.offset as int == k {
                Option::Some((name, tok))
            } else {
                Option::None
            },
        },
    }
}

/// The accesses a match sequence contributes to the scope keyed `k`, in
/// order.
pub open spec fn scope_stream(ms: Seq<RawMatch>, k: int) -> Seq<(Seq<char>, NameToken)>
    decreases ms.len(),
{
    if ms.len() == 0 {
        Seq::empty()
    } else {
        let prev = scope_stream(ms.drop_last(), k);
        match scope_access(ms.last(), k) {
            Option::None => prev,
            Option::Some(a) => prev.push(a),
        }
    }
}

/// The canonical names of a scope's accesses, in order.
pub open spec fn stream_names(st: Seq<(Seq<char>, NameToken)>) -> Seq<Seq<char>> {
    st.map_values(|a: (Seq<char>, NameToken)| a.0)
}

/// The diagnostic one access reports when its name repeats in its scope.
pub open spec fn diag_of(a: (Seq<char>, NameToken), k: int) -> DiagView {
    DiagView { function: a.1.text@, function_offset: k, member: a.0, line: a.1.line as int }
}

/// One scope's own tracker step, over one of its accesses.
pub open spec fn scope_step(sc: ScopeModel, a: (Seq<char>, NameToken), k: int) -> (
    ScopeModel,
    Option<DiagView>,
) {
    if sc.closed {
        (sc, Option::None)
    } else if sc.names.contains(a.0) {
        (ScopeModel { names: sc.names, closed: true }, Option::Some(diag_of(a, k)))
    } else {
        (ScopeModel { names: sc.names.push(a.0), closed: false }, Option::None)
    }
}

/// One scope's state after its whole access stream.
pub open spec fn scope_state(st: Seq<(Seq<char>, NameToken)>, k: int) -> ScopeModel
    decreases st.len(),
{
    if st.len() == 0 {
        empty_scope()
    } else {
        scope_step(scope_state(st.drop_last(), k), st.last(), k).0
    }
}

/// The diagnostics one scope's access stream produces, in order.
pub open spec fn scope_diags(st: Seq<(Seq<char>, NameToken)>, k: int) -> Seq<DiagView>
    decreases st.len(),
{
    if st.len() == 0 {
        Seq::empty()
    } else {
        let prev = scope_diags(st.drop_last(), k);
        match scope_step(scope_state(st.drop_last(), k), st.last(), k).1 {
            Option::None => prev,
            Option::Some(d) => prev.push(d),
        }
    }
}

/// Whether a diagnostic belongs to the scope keyed `k`.
pub open spec fn at_scope(k: int) -> spec_fn(DiagView) -> bool {
    |d: DiagView| d.function_offset == k
}

/// Scopes are independent: what the tracker holds and reports for one scope
/// is exactly what that scope's own access stream determines, whatever the
/// other matches do.
pub proof fn lemma_scope_decomposition(ms: Seq<RawMatch>, k: int)
    ensures
        scope_at(track_state(ms), k) == scope_state(scope_stream(ms, k), k),
        spec_diags(ms).filter(at_scope(k)) == scope_diags(scope_stream(ms, k), k),
    decreases ms.len(),
{
    reveal(Seq::filter);
    if ms.len() == 0 {
    } else {
        let prev = ms.drop_last();
        let m = ms.last();
        lemma_scope_decomposition(prev, k);
        let state = track_state(prev);
        let stepped = track_step(state, m);
        let st_prev = scope_stream(prev, k);
        assert(spec_diags(prev).filter(at_scope(k)) == scope_diags(st_prev, k));
        match canonical_name(m) {
            Option::None => {},
            Option::Some(name) => match enclosing_token(match_ancestors(m)) {
                Option::None => {},
                Option::Some(tok) => {
                    let kk = tok.offset as int;
                    let sc = scope_at(state, kk);
                    if kk == k {
                        let a = (name, tok);
                        assert(scope_stream(ms, k) == st_prev.push(a));
                        assert(st_prev.push(a).drop_last() =~= st_prev);
                        assert(scope_state(scope_stream(ms, k), k) == scope_step(
                            scope_state(st_prev, k),
                            a,
                            k,
                        ).0);
                        if !sc.closed && sc.names.contains(name) {
                            let d = diag_of(a, k);
                            assert(stepped.1 == Option::Some(d));
                            assert(spec_diags(ms) == spec_diags(prev).push(d));
                            assert(spec_diags(prev).push(d).drop_last() =~= spec_diags(prev));
                            assert(at_scope(k)(d));
                        } else {
                            assert(stepped.1 is None);
                        }
                    } else {
                        assert(scope_at(stepped.0, k) == scope_at(state, k));
                        assert(scope_stream(ms, k) == st_prev);
                        match stepped.1 {
                            Option::None => {},
                            Option::Some(d) => {
                                assert(d.function_offset == kk);
                                assert(!at_scope(k)(d));
                                assert(spec_diags(ms) == spec_diags(prev).push(d));
                                assert(spec_diags(prev).push(d).drop_last() =~= spec_diags(prev));
                            },
                        }
                    }
                },
            },
        }
    }
}

/// A scope whose access names are pairwise distinct records them all, stays
/// open, and reports nothing.
proof fn lemma_distinct_stream_silent(st: Seq<(Seq<char>, NameToken)>, k: int)
    requires
        forall|i: int, j: int|
            0 <= i < j < st.len() ==> (#[trigger] st[i]).0 != (#[trigger] st[j]).0,
    ensures
        scope_state(st, k) == (ScopeModel { names: stream_names(st), closed: false }),
        scope_diags(st, k) == Seq::<DiagView>::empty(),
    decreases st.len(),
{
    if st.len() == 0 {
        assert(stream_names(st) =~= Seq::<Seq<char>>::empty());
    } else {
        let prev = st.drop_last();
        let a = st.last();
        assert forall|i: int, j: int|
            0 <= i < j < prev.len() implies (#[trigger] prev[i]).0 != (#[trigger] prev[j]).0 by {
            assert(prev[i] == st[i]);
            assert(prev[j] == st[j]);
        }
        lemma_distinct_stream_silent(prev, k);
        assert(stream_names(st) =~= stream_names(prev).push(a.0));
        if stream_names(prev).contains(a.0) {
            let w = choose|w: int|
                0 <= w < stream_names(prev).len() && stream_names(prev)[w] == a.0;
            assert(st[w].0 == a.0);
            assert(st[w].0 != st[st.len() - 1].0);
            assert(false);
        }
    }
}

/// A scope whose access names repeat reports exactly once, at the first
/// access whose name was already recorded, and is closed from then on.
proof fn lemma_first_repeat_reports(st: Seq<(Seq<char>, NameToken)>, k: int, j: int)
    requires
        0 <= j < st.len(),
        stream_names(st).take(j).contains(st[j].0),
        forall|i: int|
            0 <= i < j ==> !stream_names(st).take(i).contains((#[trigger] st[i]).0),
    ensures
        scope_diags(st, k) == seq![diag_of(st[j], k)],
        scope_state(st, k).closed,
    decreases st.len(),
{
    let prev = st.drop_last();
    let a = st.last();
    if j == st.len() - 1 {
        assert forall|i1: int, i2: int|
            0 <= i1 < i2 < prev.len() implies (#[trigger] prev[i1]).0 != (#[trigger] prev[i2]).0 by {
            if prev[i1].0 == prev[i2].0 {
                assert(stream_names(st).take(i2)[i1] == st[i1].0);
                assert(stream_names(st).take(i2).contains(st[i2].0));
                assert(false);
            }
        }
        lemma_distinct_stream_silent(prev, k);
        assert(stream_names(st).take(j) =~= stream_names(prev));
        assert(scope_state(prev, k).names.contains(a.0));
        assert(scope_diags(st, k) =~= seq![diag_of(st[j], k)]);
    } else {
        assert(stream_names(prev).take(j) =~= stream_names(st).take(j));
        assert(prev[j] == st[j]);
        assert forall|i: int|
            0 <= i < j implies !stream_names(prev).take(i).contains((#[trigger] prev[i]).0) by {
            assert(stream_names(prev).take(i) =~= stream_names(st).take(i));
            assert(prev[i] == st[i]);
        }
        lemma_first_repeat_reports(prev, k, j);
        assert(scope_state(prev, k).closed);
        assert(scope_diags(st, k) == scope_diags(prev, k));
        assert(scope_diags(prev, k) == seq![diag_of(prev[j], k)]);
    }
}

/// LAW: a function whose accessed canonical member names are pairwise
/// distinct produces no diagnostic. The scope keyed `k` is quantified over
/// its access stream; no diagnostic of the run is attributed to it.
pub proof fn lemma_distinct_names_no_diagnostic(ms: Seq<RawMatch>, k: int)
    requires
        forall|i: int, j: int|
            0 <= i < j < scope_stream(ms, k).len() ==> (#[trigger] scope_stream(ms, k)[i]).0 != (
            #[trigger] scope_stream(ms, k)[j]).0,
    ensures
        forall|i: int|
            0 <= i < spec_diags(ms).len() ==> (#[trigger] spec_diags(ms)[i]).function_offset != k,
{
    lemma_scope_decomposition(ms, k);
    lemma_distinct_stream_silent(scope_stream(ms, k), k);
    assert forall|i: int|
        0 <= i < spec_diags(ms).len() implies (#[trigger] spec_diags(ms)[i]).function_offset
            != k by {
        if spec_diags(ms)[i].function_offset == k {
            assert(at_scope(k)(spec_diags(ms)[i]));
            spec_diags(ms).lemma_filter_contains(at_scope(k), i);
            assert(false);
        }
    }
}

/// LAW: a function where a canonical member name repeats produces exactly
/// one diagnostic: at the first access whose name was already recorded,
/// naming that member and that access's function token.
pub proof fn lemma_repeat_reported_once(ms: Seq<RawMatch>, k: int, j: int)
    requires
        0 <= j < scope_stream(ms, k).len(),
        stream_names(scope_stream(ms, k)).take(j).contains(scope_stream(ms, k)[j].0),
        forall|i: int|
            0 <= i < j ==> !stream_names(scope_stream(ms, k)).take(i).contains(
                (#[trigger] scope_stream(ms, k)[i]).0,
            ),
    ensures
        spec_diags(ms).filter(at_scope(k)) == seq![diag_of(scope_stream(ms, k)[j], k)],
{
    lemma_scope_decomposition(ms, k);
    lemma_first_repeat_reports(scope_stream(ms, k), k, j);
}

/// Whether some name repeats in a sequence of names.
pub open spec fn has_repeat(names: Seq<Seq<char>>) -> bool {
    exists|i: int, j: int| 0 <= i < j < names.len() && names[i] == names[j]
}

/// The first index whose name was already seen, given that one exists at or
/// after `start`.
proof fn first_repeat_from(names: Seq<Seq<char>>, start: int) -> (j: int)
    requires
        0 <= start <= names.len(),
        forall|i: int| 0 <= i < start ==> !names.take(i).contains(#[trigger] names[i]),
        exists|i: int| start <= i < names.len() && names.take(i).contains(#[trigger] names[i]),
    ensures
        start <= j < names.len(),
        names.take(j).contains(names[j]),
        forall|i: int| 0 <= i < j ==> !names.take(i).contains(#[trigger] names[i]),
    decreases names.len() - start,
{
    if names.take(start).contains(names[start]) {
        start
    } else {
        first_repeat_from(names, start + 1)
    }
}

/// LAW: a function where some canonical member name repeats produces
/// exactly one diagnostic, and it is attributed to that function.
pub proof fn lemma_repeat_exactly_one(ms: Seq<RawMatch>, k: int)
    requires
        has_repeat(stream_names(scope_stream(ms, k))),
    ensures
        spec_diags(ms).filter(at_scope(k)).len() == 1,
        spec_diags(ms).filter(at_scope(k))[0].function_offset == k,
{
    let st = scope_stream(ms, k);
    let names = stream_names(st);
    let (i0, j0) = choose|i0: int, j0: int|
        0 <= i0 < j0 < names.len() && names[i0] == names[j0];
    assert(names.take(j0)[i0] == names[i0]);
    assert(names.take(j0).contains(names[j0]));
    let j = first_repeat_from(names, 0);
    assert(names[j] == st[j].0);
    assert forall|i: int|
        0 <= i < j implies !stream_names(st).take(i).contains((#[trigger] st[i]).0) by {
        assert(names[i] == st[i].0);
    }
    lemma_repeat_reported_once(ms, k, j);
    assert(spec_diags(ms).filter(at_scope(k)) == seq![diag_of(st[j], k)]);
}

/// LAW: a scope never records the same canonical name twice — at the second
/// occurrence it reports and closes instead, so the recorded names stay
/// pairwise distinct.
pub proof fn lemma_scope_names_distinct(st: Seq<(Seq<char>, NameToken)>, k: int)
    ensures
        forall|i: int, j: int|
            0 <= i < j < scope_state(st, k).names.len() ==> #[trigger] scope_state(st, k).names[i]
                != #[trigger] scope_state(st, k).names[j],
    decreases st.len(),
{
    if st.len() == 0 {
    } else {
        let prev = st.drop_last();
        let a = st.last();
        lemma_scope_names_distinct(prev, k);
        let sc = scope_state(prev, k);
        if !sc.closed && !sc.names.contains(a.0) {
            assert forall|i: int, j: int|
                0 <= i < j < scope_state(st, k).names.len() implies #[trigger] scope_state(
                st,
                k,
            ).names[i] != #[trigger] scope_state(st, k).names[j] by {
                if j == sc.names.len() {
                    assert(sc.names[i] != a.0);
                }
            }
        }
    }
}

/// LAW: a bare identifier without the alias marker is never counted as an
/// access.
pub proof fn lemma_unmarked_identifier_ignored(m: RawMatch)
    requires
        m.query_index == crate::tracker::bare_pattern(),
        m.capture matches Option::Some(c) && !(c.text@.len() >= 1 && c.text@[0]
            == crate::tracker::alias_marker()),
    ensures
        canonical_name(m) is None,
{
}

/// LAW: a bare identifier in callee position — its grandparent is a call
/// expression — is never counted as an access.
pub proof fn lemma_callee_position_ignored(m: RawMatch)
    requires
        m.query_index == crate::tracker::bare_pattern(),
        m.capture matches Option::Some(c) && c.ancestors@.len() >= 2 && c.ancestors@[1].kind@
            == crate::tracker::call_kind(),
    ensures
        canonical_name(m) is None,
{
}

/// LAW: the two counting paths never overlap: a bare identifier that is the
/// member suffix of a member access — its parent — is never counted, since
/// the qualified pattern already counts it.
pub proof fn lemma_member_suffix_not_double_counted(m: RawMatch)
    requires
        m.query_index == crate::tracker::bare_pattern(),
        m.capture matches Option::Some(c) && c.ancestors@.len() >= 1 && c.ancestors@[0].kind@
            == crate::tracker::member_access_kind(),
    ensures
        canonical_name(m) is None,
{
}

/// LAW: a match with no canonical name, or with no enclosing function
/// definition, leaves the tracker's state and diagnostics unchanged.
pub proof fn lemma_discarded_match_invisible(ms: Seq<RawMatch>, m: RawMatch)
    requires
        canonical_name(m) is None || enclosing_token(match_ancestors(m)) is None,
    ensures
        spec_diags(ms.push(m)) == spec_diags(ms),
        track_state(ms.push(m)) == track_state(ms),
{
    assert(ms.push(m).drop_last() =~= ms);
    assert(ms.push(m).last() == m);
}

/// Removing one file splits a run's diagnostics into that file's and the
/// remaining files'.
proof fn lemma_run_remove(files: Seq<SourceFile>, version: Seq<char>, j: int)
    requires
        0 <= j < files.len(),
    ensures
        run_diag_multiset(files, version) == run_diag_multiset(files.remove(j), version).add(
            tagged_file_diags(files[j], version).to_multiset(),
        ),
    decreases files.len(),
{
    broadcast use vstd::multiset::group_multiset_axioms;

    if j == files.len() - 1 {
        assert(files.remove(j) =~= files.drop_last());
    } else {
        let prev = files.drop_last();
        lemma_run_remove(prev, version, j);
        assert(prev[j] == files[j]);
        assert(files.remove(j).drop_last() =~= prev.remove(j));
        assert(files.remove(j).last() == files.last());
        let rest = run_diag_multiset(prev.remove(j), version);
        let own = tagged_file_diags(files[j], version).to_multiset();
        let last = tagged_file_diags(files.last(), version).to_multiset();
        assert(rest.add(own).add(last) =~= rest.add(last).add(own));
    }
}

/// LAW: how a run's files are ordered or split over workers does not change
/// what it reports: two runs over the same multiset of files produce the
/// same multiset of path-tagged diagnostics.
pub proof fn lemma_schedule_independent(a: Seq<SourceFile>, b: Seq<SourceFile>, version: Seq<char>)
    requires
        a.to_multiset() == b.to_multiset(),
    ensures
        run_diag_multiset(a, version) == run_diag_multiset(b, version),
    decreases a.len(),
{
    broadcast use vstd::seq_lib::group_to_multiset_ensures;
    broadcast use vstd::multiset::group_multiset_axioms;
    broadcast use vstd::multiset::lemma_insert_increases_count_by_1;
    broadcast use vstd::multiset::lemma_insert_other_elements_unchanged;

    if a.len() == 0 {
        assert(b.to_multiset().len() == 0);
        assert(b.len() == 0);
    } else {
        let x = a.last();
        assert(a.contains(x));
        let j = choose|j: int| 0 <= j < b.len() && b[j] == x;
        assert(b.to_multiset().count(x) > 0);
        assert(b.contains(x));
        assert(a =~= a.drop_last().push(x));
        assert(a.to_multiset() == a.drop_last().to_multiset().insert(x));
        assert(b.remove(j).to_multiset() =~= b.to_multiset().remove(b[j]));
        assert(a.drop_last().to_multiset() =~= b.remove(j).to_multiset());
        lemma_schedule_independent(a.drop_last(), b.remove(j), version);
        lemma_run_remove(b, version, j);
    }
}

} // verus!
