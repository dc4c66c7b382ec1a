use crate::config::{LayoutView, WatchView};
use crate::quoting::{joined_words, quoted_all, sh_quoted};
use crate::render::{
    all_runnable, contains, occurs_at, panel_text, panels_text, placeholder_text, rendered,
    replace_all, watch_block, RenderError,
};
use vstd::prelude::*;

verus! {

/// Rendering depends on the template and the entries alone: the same layout rendered
/// into the same template twice gives the same result.
pub proof fn lemma_render_deterministic(template: Seq<char>, a: LayoutView, b: LayoutView)
    requires
        a.watch == b.watch,
    ensures
        rendered(template, a.watch) == rendered(template, b.watch),
{
}

/// Blocks keep the order of their entries: the panes of `a` followed by those of `b`
/// are the blocks of `a`, a newline, then the blocks of `b`.
pub proof fn lemma_panels_in_order(a: Seq<WatchView>, b: Seq<WatchView>)
    requires
        a.len() > 0,
        b.len() > 0,
    ensures
        panels_text(a + b) == panels_text(a) + seq!['\n'] + panels_text(b),
    decreases b.len(),
{
    let ab = a + b;
    assert(ab.last() == b.last());
    if b.len() == 1 {
        assert(ab.drop_last() =~= a);
    } else {
        assert(ab.drop_last() =~= a + b.drop_last());
        lemma_panels_in_order(a, b.drop_last());
        assert(panels_text(ab) =~= panels_text(a) + seq!['\n'] + panels_text(b));
    }
}

/// With every command runnable, a template without the placeholder always fails with
/// `MissingPlaceholder`, and one with it always succeeds.
pub proof fn lemma_placeholder_strict(template: Seq<char>, ws: Seq<WatchView>)
    requires
        all_runnable(ws),
    ensures
        !contains(template, placeholder_text()) <==> rendered(template, ws) == Err::<
            Seq<char>,
            RenderError,
        >(RenderError::MissingPlaceholder),
        contains(template, placeholder_text()) <==> rendered(template, ws) is Ok,
{
}

/// An entry outside broadcast mode whose command is a lone executable renders on one
/// line, with no nested `args`.
pub proof fn lemma_lone_executable_one_line(w: WatchView)
    requires
        !w.broadcast,
        w.command.len() == 1,
    ensures
        watch_block(w) == "pane name=\""@ + w.name + "\" command=\""@ + sh_quoted(w.command[0])
            + "\""@,
{
    assert(quoted_all(w.command.skip(1)).len() == 0);
}

/// A broadcast entry runs `script` with `-fec`, its escaped tokens joined by single
/// spaces as one argument, and the `.broadcast` marker.
pub proof fn lemma_broadcast_wrapping(w: WatchView)
    requires
        w.broadcast,
        w.command.len() > 0,
    ensures
        watch_block(w) == "pane name=\""@ + w.name + "\" command=\"script\" {\n    args \"-fec\" \""@
            + joined_words(quoted_all(w.command), false) + "\" \".broadcast\"\n}"@,
{
    assert(seq![sh_quoted(w.command[0])] + quoted_all(w.command.skip(1)) =~= quoted_all(w.command));
}

/// When `r` does not start with a character of `q`, an output of `replace_all` that
/// begins with `q` copied it from the input.
proof fn lemma_prefix_copied(t: Seq<char>, p: Seq<char>, r: Seq<char>, q: Seq<char>)
    requires
        p.len() > 0,
        r.len() > 0,
        forall|k: int| 0 <= k < q.len() ==> q[k] != r[0],
    ensures
        ({
            let out = replace_all(t, p, r);
            out.len() >= q.len() && out.subrange(0, q.len() as int) == q ==> t.len() >= q.len()
                && t.subrange(0, q.len() as int) == q
        }),
    decreases t.len(),
{
    let out = replace_all(t, p, r);
    if q.len() == 0 {
        assert(t.subrange(0, 0) =~= q);
    } else if out.len() >= q.len() && out.subrange(0, q.len() as int) == q {
        assert(out[0] == q[0]);
        if t.len() == 0 {
        } else if occurs_at(t, p, 0) {
            assert(out[0] == r[0]);
        } else {
            let tail = replace_all(t.skip(1), p, r);
            assert(out == seq![t[0]] + tail);
            let q1 = q.skip(1);
            assert(tail.subrange(0, q1.len() as int) =~= q1) by {
                assert forall|k: int| 0 <= k < q1.len() implies tail.subrange(0, q1.len() as int)[k] == q1[k] by {
                    assert(out.subrange(0, q.len() as int)[k + 1] == q[k + 1]);
                }
            }
            lemma_prefix_copied(t.skip(1), p, r, q1);
            assert(t.subrange(0, q.len() as int) =~= q) by {
                assert forall|k: int| 0 <= k < q.len() implies t.subrange(0, q.len() as int)[k] == q[k] by {
                    if k > 0 {
                        assert(t.skip(1).subrange(0, q1.len() as int)[k - 1] == q1[k - 1]);
                    }
                }
            }
        }
    }
}

/// `replace_all` leaves no occurrence of `p` when `r` is not empty, holds no first
/// character of `p`, and does not start with a character of `p`.
proof fn lemma_no_occurrence_left(t: Seq<char>, p: Seq<char>, r: Seq<char>)
    requires
        p.len() > 0,
        r.len() > 0,
        forall|k: int| 0 <= k < p.len() ==> p[k] != r[0],
        forall|k: int| 0 <= k < r.len() ==> r[k] != p[0],
    ensures
        !contains(replace_all(t, p, r), p),
    decreases t.len(),
{
    let out = replace_all(t, p, r);
    if t.len() > 0 {
        lemma_no_occurrence_left(t.skip(if occurs_at(t, p, 0) { p.len() as int } else { 1 }), p, r);
        if occurs_at(t, p, 0) {
            let tail = replace_all(t.skip(p.len() as int), p, r);
            assert(out == r + tail);
            assert forall|i: int| !occurs_at(out, p, i) by {
                if occurs_at(out, p, i) {
                    assert(out.subrange(i, i + p.len())[0] == p[0]);
                    if i < r.len() {
                        assert(out[i] == r[i]);
                    } else {
                        assert(tail.subrange(i - r.len(), i - r.len() + p.len()) =~= out.subrange(i, i + p.len()));
                        assert(occurs_at(tail, p, i - r.len()));
                    }
                }
            }
        } else {
            let tail = replace_all(t.skip(1), p, r);
            assert(out == seq![t[0]] + tail);
            assert forall|i: int| !occurs_at(out, p, i) by {
                if occurs_at(out, p, i) {
                    if i == 0 {
                        lemma_prefix_copied(t, p, r, p);
                    } else {
                        assert(tail.subrange(i - 1, i - 1 + p.len()) =~= out.subrange(i, i + p.len()));
                        assert(occurs_at(tail, p, i - 1));
                    }
                }
            }
        }
    }
}

/// The panes of a non-empty list of entries start with `pane`.
proof fn lemma_panels_start(ws: Seq<WatchView>)
    requires
        ws.len() > 0,
    ensures
        panels_text(ws).len() > 0,
        panels_text(ws)[0] == 'p',
    decreases ws.len(),
{
    reveal_strlit("pane name=\"");
    let w = ws[0];
    if ws.len() == 1 {
        assert(watch_block(w) == panel_text(w.name, sh_quoted(w.command[0]), quoted_all(w.command.skip(1)), w.broadcast));
    } else {
        lemma_panels_start(ws.drop_last());
    }
}

/// Rendering into a template that holds the placeholder leaves no placeholder behind,
/// for at least one entry whose pane text holds no `$`.
pub proof fn lemma_no_placeholder_left(template: Seq<char>, ws: Seq<WatchView>)
    requires
        all_runnable(ws),
        ws.len() > 0,
        contains(template, placeholder_text()),
        forall|k: int| 0 <= k < panels_text(ws).len() ==> panels_text(ws)[k] != '$',
    ensures
        rendered(template, ws) matches Ok(s) && !contains(s, placeholder_text()),
{
    lemma_panels_start(ws);
    lemma_no_occurrence_left(template, placeholder_text(), panels_text(ws));
}

} // verus!
