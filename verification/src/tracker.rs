//! The duplicate-access tracker: the lint's rules, stated as specification
//! functions over raw match records, and the verified pass that applies them.
//!
//! For each match, in traversal order: resolve the canonical member name (or
//! discard the match), find the nearest enclosing function definition (or
//! discard), and record the access in that function's scope. The second time
//! a name lands in one scope, the scope produces its one diagnostic and stops
//! tracking; later accesses in that function are ignored, so a function
//! reports at most once.

use vstd::prelude::*;

use crate::records::{
    AncestorNode, CaptureData, DiagView, Diagnostic, NameToken, RawMatch, diag_views, seq_views,
};

verus! {

/// The index of the qualified-access query in the query list.
pub open spec fn qualified_pattern() -> int {
    0
}

/// The index of the bare-identifier query in the query list.
pub open spec fn bare_pattern() -> int {
    1
}

/// The kind name of a member-access expression node.
pub open spec fn member_access_kind() -> Seq<char> {
    "MemberAccessExpression"@
}

/// The kind name of a function-call expression node.
pub open spec fn call_kind() -> Seq<char> {
    "FunctionCallExpression"@
}

/// The kind name of a function-definition node.
pub open spec fn function_definition_kind() -> Seq<char> {
    "FunctionDefinition"@
}

/// The character that marks a local variable as a storage-pointer alias.
pub open spec fn alias_marker() -> char {
    '_'
}

/// The prefix a qualified access contributes to its canonical name: the
/// fixed storage-pointer identifier and the period.
pub open spec fn storage_prefix() -> Seq<char> {
    "s."@
}

/// The ancestors of a match's captured node, parent first; empty when the
/// match has no capture.
pub open spec fn match_ancestors(m: RawMatch) -> Seq<AncestorNode> {
    match m.capture {
        Option::Some(c) => c.ancestors@,
        Option::None => Seq::empty(),
    }
}

/// Whether a bare identifier is kept as a storage-alias access: it must not
/// be the member suffix of a member access (its parent; the qualified query
/// already counts those), must not be the callee of a call (its
/// grandparent), and must carry the alias marker.
pub open spec fn bare_kept(c: CaptureData) -> bool {
    &&& !(c.ancestors@.len() >= 1 && c.ancestors@[0].kind@ == member_access_kind())
    &&& !(c.ancestors@.len() >= 2 && c.ancestors@[1].kind@ == call_kind())
    &&& c.text@.len() >= 1 && c.text@[0] == alias_marker()
}

/// The canonical member name of one match, or `None` when the match is
/// discarded: a qualified access contributes `s.<member>`; a bare identifier
/// contributes its own text when [`bare_kept`] holds.
pub open spec fn canonical_name(m: RawMatch) -> Option<Seq<char>> {
    match m.capture {
        Option::None => Option::None,
        Option::Some(c) => {
            if m.query_index == qualified_pattern() {
                Option::Some(storage_prefix() + c.text@)
            } else if m.query_index == bare_pattern() {
                if bare_kept(c) {
                    Option::Some(c.text@)
                } else {
                    Option::None
                }
            } else {
                Option::None
            }
        },
    }
}

/// The name token of the nearest enclosing function definition, walking the
/// ancestors parent first: `None` when no ancestor is a function definition,
/// or when the nearest one has no identifier token.
pub open spec fn enclosing_token(ans: Seq<AncestorNode>) -> Option<NameToken>
    decreases ans.len(),
{
    if ans.len() == 0 {
        Option::None
    } else if ans[0].kind@ == function_definition_kind() {
        ans[0].name_token
    } else {
        enclosing_token(ans.drop_first())
    }
}

/// One function scope's tracking state: the canonical names recorded so far,
/// in order, and whether the scope already produced its diagnostic.
pub struct ScopeModel {
    pub names: Seq<Seq<char>>,
    pub closed: bool,
}

/// The state of a scope nothing was recorded in yet.
pub open spec fn empty_scope() -> ScopeModel {
    ScopeModel { names: Seq::empty(), closed: false }
}

/// The tracking state of the scope keyed `k`: scopes are created on first
/// use.
pub open spec fn scope_at(state: Map<int, ScopeModel>, k: int) -> ScopeModel {
    if state.dom().contains(k) {
        state[k]
    } else {
        empty_scope()
    }
}

/// One tracker step: the state after one match, and the diagnostic it
/// produces, if any. A match with no canonical name or no enclosing function
/// changes nothing; a closed scope ignores the match; a repeated name closes
/// the scope and reports; a new name is recorded.
pub open spec fn track_step(state: Map<int, ScopeModel>, m: RawMatch) -> (
    Map<int, ScopeModel>,
    Option<DiagView>,
) {
    match canonical_name(m) {
        Option::None => (state, Option::None),
        Option::Some(name) => match enclosing_token(match_ancestors(m)) {
            Option::None => (state, Option::None),
            Option::Some(tok) => {
                let k = tok.offset as int;
                let sc = scope_at(state, k);
                if sc.closed {
                    (state, Option::None)
                } else if sc.names.contains(name) {
                    (
                        state.insert(k, ScopeModel { names: sc.names, closed: true }),
                        Option::Some(
                            DiagView {
                                function: tok.text@,
                                function_offset: k,
                                member: name,
                                line: tok.line as int,
                            },
                        ),
                    )
                } else {
                    (state.insert(k, ScopeModel { names: sc.names.push(name), closed: false }),
                    Option::None)
                }
            },
        },
    }
}

/// The tracking state after a whole match sequence.
pub open spec fn track_state(ms: Seq<RawMatch>) -> Map<int, ScopeModel>
    decreases ms.len(),
{
    if ms.len() == 0 {
        Map::empty()
    } else {
        track_step(track_state(ms.drop_last()), ms.last()).0
    }
}

/// All diagnostics a match sequence produces, in order.
pub open spec fn spec_diags(ms: Seq<RawMatch>) -> Seq<DiagView>
    decreases ms.len(),
{
    if ms.len() == 0 {
        Seq::empty()
    } else {
        let prev = spec_diags(ms.drop_last());
        match track_step(track_state(ms.drop_last()), ms.last()).1 {
            Option::None => prev,
            Option::Some(d) => prev.push(d),
        }
    }
}

/// The exec form of [`member_access_kind`].
fn member_access_kind_name() -> (r: String)
    ensures
        r@ == member_access_kind(),
{
    String::from_str("MemberAccessExpression")
}

/// The exec form of [`call_kind`].
fn call_kind_name() -> (r: String)
    ensures
        r@ == call_kind(),
{
    String::from_str("FunctionCallExpression")
}

/// The exec form of [`function_definition_kind`].
fn function_definition_kind_name() -> (r: String)
    ensures
        r@ == function_definition_kind(),
{
    String::from_str("FunctionDefinition")
}

/// Whether a string starts with the alias marker.
fn has_alias_marker(s: &String) -> (r: bool)
    ensures
        r == (s@.len() >= 1 && s@[0] == alias_marker()),
{
    if s.as_str().unicode_len() == 0 {
        false
    } else {
        s.as_str().get_char(0) == '_'
    }
}

/// The exec form of [`canonical_name`].
fn canonical_name_exec(m: &RawMatch) -> (r: Option<String>)
    ensures
        crate::records::opt_view(r) == canonical_name(*m),
{
    match &m.capture {
        Option::None => Option::None,
        Option::Some(c) => {
            if m.query_index == 0 {
                let mut name = String::from_str("s.");
                name.append(c.text.as_str());
                Option::Some(name)
            } else if m.query_index == 1 {
                let suffix_kind = member_access_kind_name();
                let callee_kind = call_kind_name();
                if c.ancestors.len() >= 1 && c.ancestors[0].kind == suffix_kind {
                    Option::None
                } else if c.ancestors.len() >= 2 && c.ancestors[1].kind == callee_kind {
                    Option::None
                } else if !has_alias_marker(&c.text) {
                    Option::None
                } else {
                    Option::Some(c.text.clone())
                }
            } else {
                Option::None
            }
        },
    }
}

/// An owned copy of a name token.
fn clone_token(t: &NameToken) -> (r: NameToken)
    ensures
        r == *t,
{
    NameToken { offset: t.offset, text: t.text.clone(), line: t.line }
}

/// The exec form of [`enclosing_token`].
fn find_enclosing_token(ans: &Vec<AncestorNode>) -> (r: Option<NameToken>)
    ensures
        r == enclosing_token(ans@),
{
    let defn_kind = function_definition_kind_name();
    let n = ans.len();
    let mut i: usize = 0;
    proof {
        assert(ans@.skip(0) =~= ans@);
    }
    while i < n
        invariant
            n == ans@.len(),
            i <= n,
            defn_kind@ == function_definition_kind(),
            enclosing_token(ans@) == enclosing_token(ans@.skip(i as int)),
        decreases n - i,
    {
        proof {
            assert(ans@.skip(i as int)[0] == ans@[i as int]);
        }
        if ans[i].kind == defn_kind {
            let r = match &ans[i].name_token {
                Option::Some(t) => Option::Some(clone_token(t)),
                Option::None => Option::None,
            };
            return r;
        }
        proof {
            assert(ans@.skip(i as int).drop_first() =~= ans@.skip(i as int + 1));
        }
        i = i + 1;
    }
    proof {
        assert(ans@.skip(n as int) =~= Seq::<AncestorNode>::empty());
    }
    Option::None
}

/// One function scope while a match sequence is processed: the scope key,
/// the names recorded so far, and whether the scope already reported.
struct ScopeEntry {
    key: usize,
    names: Vec<String>,
    closed: bool,
}

/// The model of one scope entry.
spec fn entry_model(e: ScopeEntry) -> ScopeModel {
    ScopeModel { names: seq_views(e.names@), closed: e.closed }
}

/// Whether the entry list is exactly the tracking state `state`: keys are
/// unique, each entry models its scope, and every tracked scope has an entry.
spec fn table_models(entries: Seq<ScopeEntry>, state: Map<int, ScopeModel>) -> bool {
    &&& forall|i: int, j: int|
        0 <= i < j < entries.len() ==> (#[trigger] entries[i]).key != (#[trigger] entries[j]).key
    &&& forall|i: int|
        0 <= i < entries.len() ==> state.dom().contains((#[trigger] entries[i]).key as int)
            && state[entries[i].key as int] == entry_model(entries[i])
    &&& forall|k: int|
        #[trigger] state.dom().contains(k) ==> exists|i: int|
            0 <= i < entries.len() && (#[trigger] entries[i]).key as int == k
}

/// The index of the entry for `key`, if there is one.
fn find_scope(entries: &Vec<ScopeEntry>, key: usize) -> (r: Option<usize>)
    ensures
        match r {
            Option::Some(j) => j < entries@.len() && entries@[j as int].key == key,
            Option::None => forall|i: int|
                0 <= i < entries@.len() ==> (#[trigger] entries@[i]).key != key,
        },
{
    let n = entries.len();
    let mut i: usize = 0;
    while i < n
        invariant
            n == entries@.len(),
            i <= n,
            forall|j: int| 0 <= j < i ==> (#[trigger] entries@[j]).key != key,
        decreases n - i,
    {
        if entries[i].key == key {
            return Option::Some(i);
        }
        i = i + 1;
    }
    Option::None
}

/// Whether one of the strings has the view of `s`.
fn contains_string(v: &Vec<String>, s: &String) -> (r: bool)
    ensures
        r == seq_views(v@).contains(s@),
{
    let n = v.len();
    let mut i: usize = 0;
    while i < n
        invariant
            n == v@.len(),
            i <= n,
            forall|j: int| 0 <= j < i ==> seq_views(v@)[j] != s@,
        decreases n - i,
    {
        proof {
            assert(seq_views(v@)[i as int] == v@[i as int]@);
        }
        if v[i].eq(s) {
            return true;
        }
        i = i + 1;
    }
    assert(!seq_views(v@).contains(s@));
    false
}

/// A new entry whose key no tracked scope has extends the table.
proof fn lemma_table_push(entries: Seq<ScopeEntry>, state: Map<int, ScopeModel>, e: ScopeEntry)
    requires
        table_models(entries, state),
        forall|i: int| 0 <= i < entries.len() ==> (#[trigger] entries[i]).key != e.key,
        !state.dom().contains(e.key as int),
    ensures
        table_models(entries.push(e), state.insert(e.key as int, entry_model(e))),
{
    let entries2 = entries.push(e);
    let state2 = state.insert(e.key as int, entry_model(e));
    assert forall|a: int, b: int|
        0 <= a < b < entries2.len() implies (#[trigger] entries2[a]).key != (
    #[trigger] entries2[b]).key by {
        if b == entries.len() {
            assert(entries2[a] == entries[a]);
        } else {
            assert(entries2[a] == entries[a]);
            assert(entries2[b] == entries[b]);
        }
    }
    assert forall|i: int|
        0 <= i < entries2.len() implies state2.dom().contains((#[trigger] entries2[i]).key as int)
            && state2[entries2[i].key as int] == entry_model(entries2[i]) by {
        if i == entries.len() {
            assert(entries2[i] == e);
        } else {
            assert(entries2[i] == entries[i]);
            assert(entries[i].key as int != e.key as int);
        }
    }
    assert forall|k: int| #[trigger] state2.dom().contains(k) implies exists|i: int|
        0 <= i < entries2.len() && (#[trigger] entries2[i]).key as int == k by {
        if k == e.key as int {
            assert(entries2[entries.len() as int].key as int == k);
        } else {
            assert(state.dom().contains(k));
            let w = choose|w: int|
                0 <= w < entries.len() && (#[trigger] entries[w]).key as int == k;
            assert(entries2[w] == entries[w]);
            assert(entries2[w].key as int == k);
        }
    }
}

/// Replacing one entry by one with the same key retracks its scope.
proof fn lemma_table_update(
    entries: Seq<ScopeEntry>,
    state: Map<int, ScopeModel>,
    j: int,
    e: ScopeEntry,
)
    requires
        table_models(entries, state),
        0 <= j < entries.len(),
        e.key == entries[j].key,
    ensures
        table_models(entries.update(j, e), state.insert(e.key as int, entry_model(e))),
{
    let entries2 = entries.update(j, e);
    let state2 = state.insert(e.key as int, entry_model(e));
    assert forall|a: int, b: int|
        0 <= a < b < entries2.len() implies (#[trigger] entries2[a]).key != (
    #[trigger] entries2[b]).key by {
        assert(entries2[a].key == entries[a].key);
        assert(entries2[b].key == entries[b].key);
    }
    assert forall|i: int|
        0 <= i < entries2.len() implies state2.dom().contains((#[trigger] entries2[i]).key as int)
            && state2[entries2[i].key as int] == entry_model(entries2[i]) by {
        if i == j {
            assert(entries2[i] == e);
        } else {
            assert(entries2[i] == entries[i]);
            assert(entries[i].key != entries[j].key);
            assert(entries[i].key as int != e.key as int);
        }
    }
    assert forall|k: int| #[trigger] state2.dom().contains(k) implies exists|i: int|
        0 <= i < entries2.len() && (#[trigger] entries2[i]).key as int == k by {
        if k == e.key as int {
            assert(entries2[j].key as int == k);
        } else {
            assert(state.dom().contains(k));
            let w = choose|w: int|
                0 <= w < entries.len() && (#[trigger] entries[w]).key as int == k;
            assert(entries2[w].key == entries[w].key);
            assert(entries2[w].key as int == k);
        }
    }
}

/// Runs the tracker over a match sequence: exactly the diagnostics of
/// [`spec_diags`], in order.
pub fn analyze_matches(matches: &Vec<RawMatch>) -> (diags: Vec<Diagnostic>)
    ensures
        diag_views(diags@) == spec_diags(matches@),
{
    let mut diags: Vec<Diagnostic> = Vec::new();
    let mut entries: Vec<ScopeEntry> = Vec::new();
    let n = matches.len();
    let mut i: usize = 0;
    while i < n
        invariant
            n == matches@.len(),
            i <= n,
            table_models(entries@, track_state(matches@.take(i as int))),
            diag_views(diags@) == spec_diags(matches@.take(i as int)),
        decreases n - i,
    {
        let ghost prefix = matches@.take(i as int);
        let ghost state = track_state(prefix);
        let ghost m_spec = matches@[i as int];
        let ghost stepped = track_step(state, m_spec);
        proof {
            assert(matches@.take(i as int + 1).drop_last() =~= prefix);
            assert(matches@.take(i as int + 1).last() == m_spec);
            assert(track_state(matches@.take(i as int + 1)) == stepped.0);
        }
        let m = &matches[i];
        let name_opt = canonical_name_exec(m);
        match name_opt {
            Option::None => {
                proof {
                    assert(stepped == (state, Option::<DiagView>::None));
                }
            },
            Option::Some(name) => {
                let ghost name_val = name;
                let tok_opt = match &m.capture {
                    Option::Some(c) => {
                        let r = find_enclosing_token(&c.ancestors);
                        proof {
                            assert(match_ancestors(m_spec) == c.ancestors@);
                        }
                        r
                    },
                    Option::None => Option::None,
                };
                proof {
                    assert(tok_opt == enclosing_token(match_ancestors(m_spec)));
                }
                match tok_opt {
                    Option::None => {
                        proof {
                            assert(stepped == (state, Option::<DiagView>::None));
                        }
                    },
                    Option::Some(tok) => {
                        let ghost tok_val = tok;
                        let ghost k = tok_val.offset as int;
                        let ghost sc = scope_at(state, k);
                        match find_scope(&entries, tok.offset) {
                            Option::None => {
                                proof {
                                    if state.dom().contains(k) {
                                        let w = choose|w: int|
                                            0 <= w < entries@.len() && (#[trigger] entries@[w]).key
                                                as int == k;
                                        assert(entries@[w].key != tok_val.offset);
                                        assert(false);
                                    }
                                    assert(sc == empty_scope());
                                    assert(!sc.names.contains(name_val@));
                                }
                                let mut names: Vec<String> = Vec::new();
                                names.push(name);
                                let ghost old_entries = entries@;
                                entries.push(ScopeEntry { key: tok.offset, names, closed: false });
                                proof {
                                    let e = entries@.last();
                                    crate::records::lemma_seq_views_push(
                                        Seq::<String>::empty(),
                                        name_val,
                                    );
                                    assert(seq_views(Seq::<String>::empty()) =~= Seq::<
                                        Seq<char>,
                                    >::empty());
                                    assert(e.names@ == Seq::<String>::empty().push(name_val));
                                    assert(entry_model(e) == ScopeModel {
                                        names: sc.names.push(name_val@),
                                        closed: false,
                                    });
                                    lemma_table_push(old_entries, state, e);
                                    assert(stepped.0 == state.insert(k, entry_model(e)));
                                    assert(stepped.1 is None);
                                }
                            },
                            Option::Some(j) => {
                                proof {
                                    assert(state.dom().contains(k));
                                    assert(sc == entry_model(entries@[j as int]));
                                }
                                if entries[j].closed {
                                    proof {
                                        assert(stepped == (state, Option::<DiagView>::None));
                                    }
                                } else if contains_string(&entries[j].names, &name) {
                                    let ghost old_entries = entries@;
                                    entries[j].closed = true;
                                    let ghost d_view = stepped.1->Some_0;
                                    proof {
                                        let e = entries@[j as int];
                                        assert(entries@ == old_entries.update(j as int, e));
                                        assert(entry_model(e) == ScopeModel {
                                            names: sc.names,
                                            closed: true,
                                        });
                                        lemma_table_update(old_entries, state, j as int, e);
                                        assert(stepped.0 == state.insert(k, entry_model(e)));
                                    }
                                    let ghost old_diags = diags@;
                                    diags.push(
                                        Diagnostic {
                                            function: tok.text,
                                            function_offset: tok.offset,
                                            member: name,
                                            line: tok.line,
                                        },
                                    );
                                    proof {
                                        crate::records::lemma_diag_views_push(
                                            old_diags,
                                            diags@.last(),
                                        );
                                        assert(diags@.last()@ == d_view);
                                    }
                                } else {
                                    let ghost old_entries = entries@;
                                    let ghost old_names = entries@[j as int].names@;
                                    entries[j].names.push(name);
                                    proof {
                                        let e = entries@[j as int];
                                        assert(entries@ == old_entries.update(j as int, e));
                                        crate::records::lemma_seq_views_push(old_names, name_val);
                                        assert(e.names@ == old_names.push(name_val));
                                        assert(entry_model(e) == ScopeModel {
                                            names: sc.names.push(name_val@),
                                            closed: false,
                                        });
                                        lemma_table_update(old_entries, state, j as int, e);
                                        assert(stepped.0 == state.insert(k, entry_model(e)));
                                        assert(stepped.1 is None);
                                    }
                                }
                            },
                        }
                    },
                }
            },
        }
        proof {
            assert(table_models(entries@, track_state(matches@.take(i as int + 1))));
            assert(spec_diags(matches@.take(i as int + 1)) == match stepped.1 {
                Option::None => spec_diags(prefix),
                Option::Some(d) => spec_diags(prefix).push(d),
            });
        }
        i = i + 1;
    }
    proof {
        assert(matches@.take(n as int) =~= matches@);
    }
    diags
}

} // verus!
