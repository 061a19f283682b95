use vstd::prelude::*;

use crate::shell::{Invocation, ShellError};
use crate::style::{push_span, push_str, push_title, span, span2, title_pieces, Hue, Look, Piece, Span, Tone};
use crate::text::owned;

verus! {

/// The module run when none is given.
pub open spec fn default_modules() -> Seq<Seq<char>> {
    seq!["recon/domains-hosts/hackertarget"@]
}

/// The modules to run: those given, else the default ones.
pub open spec fn modules_used(modules: Seq<Seq<char>>) -> Seq<Seq<char>> {
    if modules.len() == 0 {
        default_modules()
    } else {
        modules
    }
}

/// The commands that run one module against the target: `SOURCE` takes the
/// target directly, so nothing has to be inserted into the database first.
pub open spec fn module_block(target: Seq<char>, module: Seq<char>) -> Seq<char> {
    "modules load "@ + module + "\n"@ + "options set SOURCE "@ + target + "\n"@ + "run\n"@
        + "back\n"@
}

/// The commands for each module in turn.
pub open spec fn module_blocks(target: Seq<char>, ms: Seq<Seq<char>>) -> Seq<char>
    decreases ms.len(),
{
    if ms.len() == 0 {
        seq![]
    } else {
        module_blocks(target, ms.drop_last()) + module_block(target, ms.last())
    }
}

/// The recon-ng resource script: the commands one would type at its prompt.
pub open spec fn script_text(target: Seq<char>, workspace: Seq<char>, modules: Seq<Seq<char>>) -> Seq<
    char,
> {
    "workspaces select "@ + workspace + "\n"@ + module_blocks(target, modules_used(modules))
        + "show hosts\n"@ + "show domains\n"@ + "exit\n"@
}

/// Writes the one-shot resource script that drives recon-ng without its
/// interactive shell: select the workspace, then for each module (or the
/// default one) load it, set `SOURCE` to the target, run it and go back;
/// finally show hosts and domains and exit.
pub fn script(target: &str, workspace: &str, modules: &[String]) -> (r: String)
    ensures
        r@ == script_text(target@, workspace@, modules.deep_view()),
{
    let mut s = owned("workspaces select ");
    push_str(&mut s, workspace);
    push_str(&mut s, "\n");
    let ghost head = s@;
    let ghost ms = modules_used(modules.deep_view());
    let count = if modules.len() == 0 {
        1
    } else {
        modules.len()
    };
    let mut i: usize = 0;
    proof {
        assert(ms.take(0) =~= Seq::<Seq<char>>::empty());
        assert(head + module_blocks(target@, ms.take(0)) =~= head);
    }
    while i < count
        invariant
            i <= count,
            ms == modules_used(modules.deep_view()),
            count == ms.len(),
            modules.len() == 0 ==> ms == default_modules(),
            modules.len() > 0 ==> ms == modules.deep_view(),
            s@ == head + module_blocks(target@, ms.take(i as int)),
        decreases count - i,
    {
        let module: &str = if modules.len() == 0 {
            "recon/domains-hosts/hackertarget"
        } else {
            modules[i].as_str()
        };
        proof {
            if modules.len() > 0 {
                assert(modules.deep_view()[i as int] == modules@[i as int]@);
            }
            assert(module@ == ms[i as int]);
        }
        let ghost before = s@;
        push_str(&mut s, "modules load ");
        push_str(&mut s, module);
        push_str(&mut s, "\n");
        push_str(&mut s, "options set SOURCE ");
        push_str(&mut s, target);
        push_str(&mut s, "\n");
        push_str(&mut s, "run\n");
        push_str(&mut s, "back\n");
        proof {
            let taken = ms.take(i + 1);
            assert(taken.drop_last() =~= ms.take(i as int));
            assert(taken.last() == module@);
            assert(s@ =~= before + module_block(target@, module@));
        }
        i = i + 1;
    }
    proof {
        assert(ms.take(i as int) =~= ms);
    }
    push_str(&mut s, "show hosts\n");
    push_str(&mut s, "show domains\n");
    push_str(&mut s, "exit\n");
    s
}

proof fn lemma_blocks_push(target: Seq<char>, ms: Seq<Seq<char>>, m: Seq<char>)
    ensures
        module_blocks(target, ms.push(m)) == module_blocks(target, ms) + module_block(target, m),
{
    assert(ms.push(m).drop_last() =~= ms);
}

/// The script for exactly one module `m`: select the workspace; load `m`,
/// set its `SOURCE` to the target, run it and go back; then show hosts and
/// domains and exit.
pub proof fn lemma_script_one_module(target: Seq<char>, workspace: Seq<char>, m: Seq<char>)
    ensures
        script_text(target, workspace, seq![m]) == "workspaces select "@ + workspace + "\n"@
            + "modules load "@ + m + "\n"@ + "options set SOURCE "@ + target + "\n"@ + "run\n"@
            + "back\n"@ + "show hosts\n"@ + "show domains\n"@ + "exit\n"@,
{
    lemma_blocks_push(target, Seq::<Seq<char>>::empty(), m);
    assert(Seq::<Seq<char>>::empty().push(m) =~= seq![m]);
    assert(module_blocks(target, Seq::<Seq<char>>::empty()).len() == 0);
    assert(script_text(target, workspace, seq![m]) =~= "workspaces select "@ + workspace + "\n"@
        + "modules load "@ + m + "\n"@ + "options set SOURCE "@ + target + "\n"@ + "run\n"@
        + "back\n"@ + "show hosts\n"@ + "show domains\n"@ + "exit\n"@);
}

/// With no module given, the script runs `recon/domains-hosts/hackertarget`
/// alone.
pub proof fn lemma_script_no_module(target: Seq<char>, workspace: Seq<char>)
    ensures
        script_text(target, workspace, Seq::<Seq<char>>::empty()) == script_text(
            target,
            workspace,
            seq!["recon/domains-hosts/hackertarget"@],
        ),
{
}

/// Adding a module to a non-empty list adds its commands after those of the
/// others and before the closing `show hosts`, `show domains`, `exit`; so
/// the script runs exactly the modules given, in the order given.
pub proof fn lemma_script_add_module(
    target: Seq<char>,
    workspace: Seq<char>,
    ms: Seq<Seq<char>>,
    m: Seq<char>,
)
    requires
        ms.len() > 0,
    ensures
        ({
            let before = script_text(target, workspace, ms);
            let tail = "show hosts\n"@ + "show domains\n"@ + "exit\n"@;
            &&& before.len() >= tail.len()
            &&& before.skip(before.len() - tail.len()) == tail
            &&& script_text(target, workspace, ms.push(m)) == before.take(before.len() - tail.len())
                + "modules load "@ + m + "\n"@ + "options set SOURCE "@ + target + "\n"@ + "run\n"@
                + "back\n"@ + tail
        }),
{
    let tail = "show hosts\n"@ + "show domains\n"@ + "exit\n"@;
    let head = "workspaces select "@ + workspace + "\n"@;
    let before = script_text(target, workspace, ms);
    lemma_blocks_push(target, ms, m);
    let b = module_blocks(target, ms);
    assert(before =~= (head + b) + tail);
    assert(before.take(before.len() - tail.len()) =~= head + b);
    assert(before.skip(before.len() - tail.len()) =~= tail);
    assert(script_text(target, workspace, ms.push(m)) =~= head + b + module_block(target, m) + tail);
}

/// `osint-recon-<target>.rc`, the name of the script file in the temp
/// directory.
pub fn script_file_name(target: &str) -> (r: String)
    ensures
        r@ == "osint-recon-"@ + target@ + ".rc"@,
{
    let mut r = owned("osint-recon-");
    push_str(&mut r, target);
    push_str(&mut r, ".rc");
    r
}

/// `recon-ng -w <workspace> -r <script> --no-check`.
pub fn invocation(workspace: &str, script_path: &str) -> (r: Invocation)
    ensures
        r.bin@ == "recon-ng"@,
        r.args.len() == 5,
        r.args[0]@ == "-w"@,
        r.args[1]@ == workspace@,
        r.args[2]@ == "-r"@,
        r.args[3]@ == script_path@,
        r.args[4]@ == "--no-check"@,
        r.timeout_secs == crate::shell::DEFAULT_TIMEOUT_SECS,
{
    let args: [&str; 5] = ["-w", workspace, "-r", script_path, "--no-check"];
    crate::shell::run("recon-ng", &args)
}

/// The recon-ng report: a title line naming the workspace, then recon-ng's
/// output, or why it could not run and the command to run it by hand.
pub open spec fn report(
    target: Seq<char>,
    workspace: Seq<char>,
    script_path: Seq<char>,
    output: Result<String, ShellError>,
) -> Seq<Piece> {
    title_pieces("recon-ng results for "@ + target + " (workspace: "@ + workspace + ")"@)
        + match output {
        Ok(out) => seq![(out@, Look::Plain)],
        Err(e) => seq![
            ("recon-ng could not be run automatically."@, Look::Fg(Tone::Dark(Hue::Red))),
            ("\n"@, Look::Plain),
            (e.text() + "\n\n"@, Look::Plain),
            ("You can still drive it manually with the generated script:\n"@, Look::Plain),
            ("  recon-ng -w "@ + workspace + " -r "@ + script_path + " --no-check\n"@, Look::Plain),
        ],
    }
}

/// The recon-ng report: its output, or, when it could not be run, the
/// reason and the exact command to run the generated script by hand.
pub fn run(target: &str, workspace: &str, script_path: &str, output: &Result<String, ShellError>) -> (r:
    Vec<Span>)
    ensures
        r.deep_view() == report(target@, workspace@, script_path@, *output),
{
    let mut title = owned("recon-ng results for ");
    push_str(&mut title, target);
    push_str(&mut title, " (workspace: ");
    push_str(&mut title, workspace);
    push_str(&mut title, ")");
    let mut out: Vec<Span> = Vec::new();
    push_title(&mut out, title);
    match output {
        Ok(o) => {
            push_span(&mut out, span(o.as_str(), Look::Plain));
        },
        Err(e) => {
            push_span(
                &mut out,
                span("recon-ng could not be run automatically.", Look::Fg(Tone::Dark(Hue::Red))),
            );
            push_span(&mut out, span("\n", Look::Plain));
            let m = e.message();
            push_span(&mut out, span2(m.as_str(), "\n\n", Look::Plain));
            push_span(
                &mut out,
                span("You can still drive it manually with the generated script:\n", Look::Plain),
            );
            let mut cmd = owned("  recon-ng -w ");
            push_str(&mut cmd, workspace);
            push_str(&mut cmd, " -r ");
            push_str(&mut cmd, script_path);
            push_str(&mut cmd, " --no-check\n");
            push_span(&mut out, Span { text: cmd, look: Look::Plain });
        },
    }
    proof {
        assert(out.deep_view() =~= report(target@, workspace@, script_path@, *output));
    }
    out
}

} // verus!
