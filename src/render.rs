use crate::config::{texts, Config, Layout, Watch, WatchView};
use crate::quoting::{join_words, joined_words, quote_words, quoted_all, sh_quoted, sh_quote};
use vstd::prelude::*;

verus! {

/// Why a layout could not be rendered.
#[derive(Clone, Copy, Debug, PartialEq, Eq, Structural)]
pub enum RenderError {
    /// A watch entry has no executable.
    EmptyCommand,
    /// The template lacks the placeholder token.
    MissingPlaceholder,
}

impl RenderError {
    pub open spec fn message_text(self) -> Seq<char> {
        match self {
            RenderError::EmptyCommand => "Command cannot be empty."@,
            RenderError::MissingPlaceholder => "The watch panel placeholder is missing!"@,
        }
    }

    /// A human-readable message for the error.
    pub fn to_string(&self) -> (r: String)
        ensures
            r@ == self.message_text(),
    {
        match self {
            RenderError::EmptyCommand => String::from_str("Command cannot be empty."),
            RenderError::MissingPlaceholder => String::from_str(
                "The watch panel placeholder is missing!",
            ),
        }
    }
}

/// The token in a template that the panes replace.
pub open spec fn placeholder_text() -> Seq<char> {
    seq!['$', '{', 'W', 'A', 'T', 'C', 'H', '_', 'P', 'A', 'N', 'E', 'L', 'S', '}']
}

fn placeholder() -> (r: &'static str)
    ensures
        r@ == placeholder_text(),
{
    proof {
        reveal_strlit("${WATCH_PANELS}");
    }
    let p = "${WATCH_PANELS}";
    assert(p@ =~= placeholder_text());
    p
}

/// `p` stands in `t` at position `i`.
pub open spec fn occurs_at(t: Seq<char>, p: Seq<char>, i: int) -> bool {
    0 <= i && i + p.len() <= t.len() && t.subrange(i, i + p.len()) == p
}

pub open spec fn contains(t: Seq<char>, p: Seq<char>) -> bool {
    exists|i: int| occurs_at(t, p, i)
}

/// `t` with every occurrence of `p`, taken left to right without overlap, replaced by `r`.
pub open spec fn replace_all(t: Seq<char>, p: Seq<char>, r: Seq<char>) -> Seq<char>
    decreases t.len(),
{
    if t.len() == 0 {
        Seq::empty()
    } else if p.len() > 0 && occurs_at(t, p, 0) {
        r + replace_all(t.skip(p.len() as int), p, r)
    } else {
        seq![t[0]] + replace_all(t.skip(1), p, r)
    }
}

fn occurs_at_exec(t: &str, n: usize, i: usize, p: &str, m: usize) -> (r: bool)
    requires
        n == t@.len(),
        m == p@.len(),
        i <= n,
    ensures
        r == occurs_at(t@, p@, i as int),
{
    if n - i < m {
        return false;
    }
    let mut j: usize = 0;
    while j < m
        invariant
            n == t@.len(),
            m == p@.len(),
            i + m <= n,
            j <= m,
            forall|k: int| 0 <= k < j ==> t@[i + k] == p@[k],
        decreases m - j,
    {
        if t.get_char(i + j) != p.get_char(j) {
            assert(t@.subrange(i as int, i + m)[j as int] != p@[j as int]);
            return false;
        }
        j += 1;
    }
    assert(t@.subrange(i as int, i + m) =~= p@);
    true
}

/// Replaces every placeholder in `template` by `panels`; fails when there is none.
pub fn splice(template: &str, panels: &str) -> (r: Result<String, RenderError>)
    ensures
        r is Ok <==> contains(template@, placeholder_text()),
        r matches Ok(s) ==> s@ == replace_all(template@, placeholder_text(), panels@),
        r matches Err(e) ==> e == RenderError::MissingPlaceholder,
{
    let ghost t = template@;
    let ghost ph = placeholder_text();
    let p = placeholder();
    let n = template.unicode_len();
    let m = p.unicode_len();
    let mut out = String::new();
    let mut found = false;
    let mut i: usize = 0;
    assert(t.skip(0) =~= t);
    while i < n
        invariant
            t == template@,
            ph == p@,
            ph == placeholder_text(),
            n == t.len(),
            m == ph.len(),
            i <= n,
            replace_all(t, ph, panels@) == out@ + replace_all(t.skip(i as int), ph, panels@),
            found <==> exists|k: int| 0 <= k < i && occurs_at(t, ph, k),
        decreases n - i,
    {
        let ghost rest = t.skip(i as int);
        assert(rest.len() > 0);
        if occurs_at_exec(template, n, i, p, m) {
            assert(rest.subrange(0, m as int) =~= t.subrange(i as int, i + m));
            assert(occurs_at(rest, ph, 0));
            assert(rest.skip(m as int) =~= t.skip(i + m));
            out.append(panels);
            i = i + m;
            found = true;
        } else {
            proof {
                if occurs_at(rest, ph, 0) {
                    assert(rest.subrange(0, m as int) =~= t.subrange(i as int, i + m));
                }
            }
            assert(rest.skip(1) =~= t.skip(i + 1));
            let c = template.substring_char(i, i + 1);
            assert(c@ =~= seq![rest[0]]);
            out.append(c);
            i = i + 1;
        }
    }
    assert(t.skip(n as int).len() == 0);
    if found {
        Ok(out)
    } else {
        assert forall|k: int| !occurs_at(t, ph, k) by {
            if occurs_at(t, ph, k) {
                assert(k < n);
            }
        }
        Err(RenderError::MissingPlaceholder)
    }
}

/// The pane block for a command whose executable and arguments are already escaped.
pub open spec fn panel_text(name: Seq<char>, exe: Seq<char>, args: Seq<Seq<char>>, broadcast: bool) -> Seq<char> {
    if broadcast {
        "pane name=\""@ + name + "\" command=\"script\" {\n    args \"-fec\" \""@
            + joined_words(seq![exe] + args, false) + "\" \".broadcast\"\n}"@
    } else if args.len() == 0 {
        "pane name=\""@ + name + "\" command=\""@ + exe + "\""@
    } else {
        "pane name=\""@ + name + "\" command=\""@ + exe + "\" {\n    args "@
            + joined_words(args, true) + "\n}"@
    }
}

/// Formats one pane from its name and its escaped executable and arguments.
pub fn format_panel(name: &str, executable: &str, args: &Vec<String>, broadcast: bool) -> (r: String)
    ensures
        r@ == panel_text(name@, executable@, texts(args@), broadcast),
{
    let mut out = String::from_str("pane name=\"");
    out.append(name);
    if broadcast {
        let mut words: Vec<String> = Vec::new();
        words.push(String::from_str(executable));
        let mut i: usize = 0;
        while i < args.len()
            invariant
                i <= args.len(),
                texts(words@) == seq![executable@] + texts(args@).take(i as int),
            decreases args.len() - i,
        {
            let a = args[i].clone();
            assert(a@ == texts(args@)[i as int]);
            let ghost prev = words@;
            words.push(a);
            assert(texts(words@) =~= texts(prev).push(a@));
            assert(texts(words@) =~= seq![executable@] + texts(args@).take(i as int + 1));
            i += 1;
        }
        assert(texts(args@).take(args.len() as int) =~= texts(args@));
        let line = join_words(&words, false);
        out.append("\" command=\"script\" {\n    args \"-fec\" \"");
        out.append(line.as_str());
        out.append("\" \".broadcast\"\n}");
    } else if args.len() == 0 {
        out.append("\" command=\"");
        out.append(executable);
        out.append("\"");
    } else {
        let line = join_words(args, true);
        out.append("\" command=\"");
        out.append(executable);
        out.append("\" {\n    args ");
        out.append(line.as_str());
        out.append("\n}");
    }
    out
}

/// The pane block of a watch entry that has an executable.
pub open spec fn watch_block(w: WatchView) -> Seq<char> {
    panel_text(w.name, sh_quoted(w.command[0]), quoted_all(w.command.skip(1)), w.broadcast)
}

/// Splits a command into its escaped executable and escaped arguments.
fn extract_args(command: &Vec<String>) -> (r: Result<(String, Vec<String>), RenderError>)
    ensures
        r is Err <==> command@.len() == 0,
        r matches Err(e) ==> e == RenderError::EmptyCommand,
        r matches Ok((exe, args)) ==> exe@ == sh_quoted(command@[0]@) && texts(args@)
            == quoted_all(texts(command@).skip(1)),
{
    if command.len() == 0 {
        return Err(RenderError::EmptyCommand);
    }
    let executable = sh_quote(command[0].as_str());
    let args = quote_words(command, 1);
    Ok((executable, args))
}

/// Renders the pane block of one watch entry.
pub fn render_watch(watch: &Watch) -> (r: Result<String, RenderError>)
    ensures
        r is Err <==> watch@.command.len() == 0,
        r matches Err(e) ==> e == RenderError::EmptyCommand,
        r matches Ok(s) ==> s@ == watch_block(watch@),
{
    let (executable, args) = extract_args(&watch.command)?;
    Ok(format_panel(watch.name.as_str(), executable.as_str(), &args, watch.broadcast))
}

/// Every watch entry has an executable.
pub open spec fn all_runnable(ws: Seq<WatchView>) -> bool {
    forall|i: int| 0 <= i < ws.len() ==> ws[i].command.len() > 0
}

/// The pane blocks of the entries, in order, one per line.
pub open spec fn panels_text(ws: Seq<WatchView>) -> Seq<char>
    decreases ws.len(),
{
    if ws.len() == 0 {
        Seq::empty()
    } else if ws.len() == 1 {
        watch_block(ws[0])
    } else {
        panels_text(ws.drop_last()) + seq!['\n'] + watch_block(ws.last())
    }
}

/// What rendering a layout's entries into a template gives.
pub open spec fn rendered(template: Seq<char>, ws: Seq<WatchView>) -> Result<Seq<char>, RenderError> {
    if !all_runnable(ws) {
        Err(RenderError::EmptyCommand)
    } else if !contains(template, placeholder_text()) {
        Err(RenderError::MissingPlaceholder)
    } else {
        Ok(replace_all(template, placeholder_text(), panels_text(ws)))
    }
}

/// The text of a rendered result.
pub open spec fn text_of(r: Result<String, RenderError>) -> Result<Seq<char>, RenderError> {
    match r {
        Ok(s) => Ok(s@),
        Err(e) => Err(e),
    }
}

/// Renders the pane blocks of the entries, in order, joined by newlines.
pub fn render_panels(watch: &Vec<Watch>) -> (r: Result<String, RenderError>)
    ensures
        r is Ok <==> all_runnable(watch@.map_values(|w: Watch| w@)),
        r matches Err(e) ==> e == RenderError::EmptyCommand,
        r matches Ok(s) ==> s@ == panels_text(watch@.map_values(|w: Watch| w@)),
{
    let ghost ws = watch@.map_values(|w: Watch| w@);
    let mut out = String::new();
    let mut i: usize = 0;
    while i < watch.len()
        invariant
            i <= watch.len(),
            ws == watch@.map_values(|w: Watch| w@),
            all_runnable(ws.take(i as int)),
            out@ == panels_text(ws.take(i as int)),
        decreases watch.len() - i,
    {
        let block = match render_watch(&watch[i]) {
            Ok(b) => b,
            Err(e) => {
                assert(ws[i as int].command.len() == 0);
                return Err(e);
            },
        };
        proof {
            reveal_strlit("\n");
        }
        if i > 0 {
            out.append("\n");
        }
        out.append(block.as_str());
        proof {
            let next = ws.take(i as int + 1);
            assert(next.drop_last() =~= ws.take(i as int));
            assert(next.last() == watch@[i as int]@);
            if i == 0 {
                assert(out@ =~= panels_text(next));
            } else {
                assert(out@ =~= panels_text(ws.take(i as int)) + seq!['\n'] + watch_block(next.last()));
            }
            assert forall|k: int| 0 <= k < next.len() implies next[k].command.len() > 0 by {
                if k < i {
                    assert(ws.take(i as int)[k] == next[k]);
                }
            }
        }
        i += 1;
    }
    assert(ws.take(watch.len() as int) =~= ws);
    Ok(out)
}

/// Renders a layout's panes into the template at its placeholder.
pub fn render_layout(template: &str, layout: &Layout) -> (r: Result<String, RenderError>)
    ensures
        text_of(r) == rendered(template@, layout@.watch),
{
    let panels = render_panels(&layout.watch)?;
    splice(template, panels.as_str())
}

/// Renders every layout of the configuration into the template, in order; stops at the
/// first layout that fails.
pub fn generate_layouts(config: &Config, template: &str) -> (r: Result<Vec<String>, RenderError>)
    ensures
        r is Ok <==> forall|i: int| 0 <= i < config.layout@.len() ==> rendered(template@, config.layout@[i]@.watch) is Ok,
        r matches Ok(v) ==> v@.len() == config.layout@.len() && forall|i: int| 0 <= i < v@.len()
            ==> rendered(template@, config.layout@[i]@.watch) == Ok::<Seq<char>, RenderError>(v@[i]@),
        r matches Err(e) ==> exists|i: int|
            0 <= i < config.layout@.len() && rendered(template@, config.layout@[i]@.watch) == Err::<
                Seq<char>,
                RenderError,
            >(e) && forall|j: int| 0 <= j < i ==> rendered(template@, config.layout@[j]@.watch) is Ok,
{
    let mut out: Vec<String> = Vec::new();
    let mut i: usize = 0;
    while i < config.layout.len()
        invariant
            i <= config.layout.len(),
            out@.len() == i,
            forall|k: int| 0 <= k < i ==> rendered(template@, config.layout@[k]@.watch) == Ok::<Seq<char>, RenderError>(out@[k]@),
        decreases config.layout.len() - i,
    {
        let text = render_layout(template, &config.layout[i]);
        match text {
            Ok(s) => out.push(s),
            Err(e) => {
                assert(rendered(template@, config.layout@[i as int]@.watch) == Err::<Seq<char>, RenderError>(e));
                assert forall|j: int| 0 <= j < i implies rendered(template@, config.layout@[j]@.watch) is Ok by {
                    assert(rendered(template@, config.layout@[j]@.watch) == Ok::<Seq<char>, RenderError>(out@[j]@));
                }
                return Err(e);
            },
        }
        i += 1;
    }
    assert forall|k: int| 0 <= k < config.layout@.len() implies rendered(template@, config.layout@[k]@.watch) is Ok by {
        assert(rendered(template@, config.layout@[k]@.watch) == Ok::<Seq<char>, RenderError>(out@[k]@));
    }
    Ok(out)
}

} // verus!
