//! Properties that relate the stages of a run.

use vstd::prelude::*;
use crate::locate::{is_latest, located_nowhere, records_input};
use crate::paths::{
    char_matches_lower, extension_of, file_name_of, has_extension, join_of, last_index_of,
    lemma_last_index_bounds, matches_lower, stem_of,
};
use crate::session::{located, next_item, next_of, pending_of, session_wf, ActionView, Event, StageView};
use crate::transcription::{ledger_of, result_extension, result_name_of, selection_of, ListedEntry};

verus! {

proof fn lemma_last_index_append(a: Seq<char>, b: Seq<char>, c: char)
    requires
        forall|k: int| 0 <= k < b.len() ==> b[k] != c,
    ensures
        last_index_of(a + b, c) == last_index_of(a, c),
    decreases b.len(),
{
    if b.len() == 0 {
        assert(a + b =~= a);
    } else {
        assert((a + b).drop_last() =~= a + b.drop_last());
        lemma_last_index_append(a, b.drop_last(), c);
    }
}

/// A file name has no separator in it, and its stem is empty only when it is.
proof fn lemma_stem_shape(p: Seq<char>)
    ensures
        forall|k: int| 0 <= k < stem_of(p).len() ==> stem_of(p)[k] != '/',
        file_name_of(p).len() > 0 ==> stem_of(p).len() > 0,
{
    lemma_last_index_bounds(p, '/');
    let n = file_name_of(p);
    lemma_last_index_bounds(n, '.');
    let li = last_index_of(p, '/');
    assert forall|k: int| 0 <= k < n.len() implies n[k] != '/' by {
        assert(n[k] == p[li + 1 + k]);
    }
}

/// A result placed in any directory is a result file named by the stem of its input.
pub proof fn lemma_result_name(dir: Seq<char>, p: Seq<char>)
    requires
        file_name_of(p).len() > 0,
    ensures
        file_name_of(join_of(dir, result_name_of(p))) == result_name_of(p),
        stem_of(join_of(dir, result_name_of(p))) == stem_of(p),
        has_extension(join_of(dir, result_name_of(p)), result_extension()),
{
    lemma_stem_shape(p);
    let s = stem_of(p);
    let n = result_name_of(p);
    let pre = if dir.len() == 0 || dir.last() == '/' {
        dir
    } else {
        dir + seq!['/']
    };
    let j = join_of(dir, n);
    assert(j =~= pre + n);
    assert forall|k: int| 0 <= k < n.len() implies n[k] != '/' by {
        if k < s.len() {
            assert(n[k] == s[k]);
        }
    }
    lemma_last_index_append(pre, n, '/');
    if pre.len() > 0 {
        assert(last_index_of(pre, '/') == pre.len() - 1);
    }
    assert(file_name_of(j) =~= n);
    assert(n =~= (s + seq!['.']) + result_extension());
    lemma_last_index_append(s + seq!['.'], result_extension(), '.');
    assert(last_index_of(n, '.') == s.len());
    assert(stem_of(j) =~= s);
    let e = n.subrange(s.len() as int + 1, n.len() as int);
    assert(e =~= result_extension());
    assert(extension_of(j) == Some(e));
    assert forall|i: int| 0 <= i < e.len() implies char_matches_lower(#[trigger] e[i], result_extension()[i]) by {}
    assert(matches_lower(e, result_extension()));
}

/// A transcript that passes through the engine's output root and is then
/// placed in the destination directory keeps the stem of its input.
pub proof fn lemma_materialized_stem(root: Seq<char>, dest: Seq<char>, p: Seq<char>)
    requires
        file_name_of(p).len() > 0,
    ensures
        stem_of(join_of(dest, result_name_of(join_of(root, result_name_of(p))))) == stem_of(p),
{
    lemma_result_name(root, p);
    let q = join_of(root, result_name_of(p));
    assert(file_name_of(q).len() > 0);
    lemma_result_name(dest, q);
}

/// The selection holds exactly the inputs whose stem is not in the ledger,
/// in their order.
pub proof fn lemma_selection_members(inputs: Seq<Seq<char>>, done: Set<Seq<char>>)
    ensures
        forall|x: Seq<char>|
            #[trigger] selection_of(inputs, done).contains(x) <==> (inputs.contains(x) && !done.contains(stem_of(x))),
        selection_of(inputs, done) == inputs.filter(|p: Seq<char>| !done.contains(stem_of(p))),
{
    let pred = |p: Seq<char>| !done.contains(stem_of(p));
    let sel = selection_of(inputs, done);
    assert forall|x: Seq<char>| #[trigger] sel.contains(x) <==> (inputs.contains(x) && !done.contains(stem_of(x))) by {
        if sel.contains(x) {
            inputs.lemma_filter_contains_rev(pred, x);
            let i = choose|i: int| 0 <= i < sel.len() && sel[i] == x;
            inputs.lemma_filter_pred(pred, i);
        }
        if inputs.contains(x) && !done.contains(stem_of(x)) {
            let i = choose|i: int| 0 <= i < inputs.len() && inputs[i] == x;
            inputs.lemma_filter_contains(pred, i);
        }
    }
}

/// Running again after every input's result was placed in the destination
/// directory selects nothing.
pub proof fn lemma_rerun_selects_nothing(inputs: Seq<Seq<char>>, dest: Seq<char>, entries: Seq<ListedEntry>)
    requires
        forall|k: int|
            0 <= k < inputs.len() ==> file_name_of(#[trigger] inputs[k]).len() > 0 && exists|i: int|
                0 <= i < entries.len() && entries[i].is_file && entries[i].path@ == join_of(dest, result_name_of(inputs[k])),
    ensures
        selection_of(inputs, ledger_of(entries)).len() == 0,
{
    let done = ledger_of(entries);
    let sel = selection_of(inputs, done);
    lemma_selection_members(inputs, done);
    if sel.len() > 0 {
        assert(sel.contains(sel[0]));
        let k = choose|k: int| 0 <= k < inputs.len() && inputs[k] == sel[0];
        let x = inputs[k];
        let i = choose|i: int|
            0 <= i < entries.len() && entries[i].is_file && entries[i].path@ == join_of(dest, result_name_of(x));
        lemma_result_name(dest, x);
        assert(stem_of(entries[i].path@) == stem_of(x));
        assert(done.contains(stem_of(x)));
    }
}

/// The event reports that the current input failed at the stage it is in.
pub open spec fn reports_failure(s: crate::session::SessionView, e: Event) -> bool {
    match e {
        Event::EngineFinished { success } => s.stage is Invoking && !success,
        Event::RunFoldersListed { folders } => s.stage is Listing && located_nowhere(folders@),
        Event::RunFolderInspected { metadata, result_present } => s.stage is Inspecting && !located(
            metadata,
            result_present,
            s.items[s.current as int],
        ),
        Event::CopyFinished { success } => s.stage is Copying && !success,
    }
}

/// A failing input does not hold up the run: the session goes on with the
/// next input (or finishes), and nothing is recorded for the failed one.
pub proof fn lemma_failure_moves_on(s: crate::session::SessionView, e: Event)
    requires
        session_wf(s),
        reports_failure(s, e),
    ensures
        next_of(s, e) == next_item(s),
        next_of(s, e).produced == s.produced,
        session_wf(next_of(s, e)),
        pending_of(next_of(s, e)) == if s.current + 1 < s.items.len() {
            ActionView::Invoke(s.items[s.current as int + 1])
        } else {
            ActionView::Finished
        },
{
    if let Event::RunFoldersListed { folders } = e {
        assert(!exists|i: int| is_latest(folders@, i));
    }
}

/// A transcript is copied for the current input only after the run folder's
/// metadata was found to record that input's path, and a result is recorded
/// only when such a copy succeeded.
pub proof fn lemma_copy_requires_recorded_input(s: crate::session::SessionView, e: Event)
    requires
        session_wf(s),
    ensures
        !(s.stage is Copying) && next_of(s, e).stage is Copying ==> {
            &&& s.stage is Inspecting
            &&& e matches Event::RunFolderInspected { metadata, result_present }
            &&& result_present
            &&& metadata matches Some(c)
            &&& records_input(c@, s.items[s.current as int])
            &&& next_of(s, e).stage->Copying_1 == join_of(s.root, result_name_of(s.items[s.current as int]))
        },
        next_of(s, e).produced != s.produced ==> {
            &&& s.stage is Copying
            &&& e matches Event::CopyFinished { success }
            &&& success
            &&& next_of(s, e).produced == s.produced.push(s.stage->Copying_1)
        },
{
}

/// Every result a session records, and the target of a pending copy, is the
/// result name of one of its inputs under the output root.
pub open spec fn results_named_by_inputs(s: crate::session::SessionView) -> bool {
    &&& forall|k: int|
        0 <= k < s.produced.len() ==> exists|i: int|
            0 <= i < s.items.len() && #[trigger] s.produced[k] == join_of(s.root, result_name_of(s.items[i]))
    &&& (s.stage matches StageView::Copying(_, to) ==> to == join_of(s.root, result_name_of(s.items[s.current as int])))
}

/// Handing any event to a session keeps every recorded result named after
/// one of its inputs.
pub proof fn lemma_results_named_by_inputs(s: crate::session::SessionView, e: Event)
    requires
        session_wf(s),
        results_named_by_inputs(s),
    ensures
        session_wf(next_of(s, e)),
        results_named_by_inputs(next_of(s, e)),
{
    let t = next_of(s, e);
    if t.produced != s.produced {
        lemma_copy_requires_recorded_input(s, e);
        assert forall|k: int| 0 <= k < t.produced.len() implies exists|i: int|
            0 <= i < t.items.len() && #[trigger] t.produced[k] == join_of(t.root, result_name_of(t.items[i])) by {
            if k < s.produced.len() {
                assert(t.produced[k] == s.produced[k]);
            } else {
                assert(t.produced[k] == join_of(s.root, result_name_of(s.items[s.current as int])));
            }
        }
    }
}

/// Each planned copy places its file in the destination directory under the
/// file's own stem, as a result file.
pub proof fn lemma_copy_targets_keep_stems(dest: Seq<char>, files: Seq<Seq<char>>, k: int)
    requires
        0 <= k < files.len(),
        file_name_of(files[k]).len() > 0,
    ensures
        stem_of(join_of(dest, result_name_of(files[k]))) == stem_of(files[k]),
        has_extension(join_of(dest, result_name_of(files[k])), result_extension()),
{
    lemma_result_name(dest, files[k]);
}

} // verus!
