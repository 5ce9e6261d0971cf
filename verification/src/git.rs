use vstd::prelude::*;
use crate::text::{decimal, decimal_of, trim, trim_end, trim_end_of, trim_of};
use crate::reports::command_output;

verus! {

/// A git action of `q g`.
pub enum GitAction {
    Status,
    Diff,
    Log { count: usize },
    Staged,
    Show { rev: String },
    Commit { msg: String },
    Branch,
    Checkout { branch: String },
}

/// How a git action runs: the arguments of a preparing `git` call (empty
/// for none), the arguments of the main call, the command's name, whether
/// an empty standard output falls back to the standard error, and whether
/// an empty result is noted.
pub struct GitPlan {
    pub prepare: Vec<String>,
    pub args: Vec<String>,
    pub command: String,
    pub stderr_fallback: bool,
    pub empty_note: bool,
}

/// The arguments of the main `git` call of an action.
pub open spec fn git_args_of(action: GitAction) -> Seq<Seq<char>> {
    match action {
        GitAction::Status => seq!["status"@, "--short"@],
        GitAction::Diff => seq!["diff"@],
        GitAction::Log { count } => seq!["log"@, "--oneline"@, "-"@ + decimal_of(count as nat)],
        GitAction::Staged => seq!["diff"@, "--cached"@],
        GitAction::Show { rev } => seq!["show"@, "--stat"@, "--oneline"@, rev@],
        GitAction::Commit { msg } => seq!["commit"@, "-m"@, msg@],
        GitAction::Branch => seq!["branch"@],
        GitAction::Checkout { branch } => seq!["checkout"@, branch@],
    }
}

/// The name under which an action is reported.
pub open spec fn git_command_of(action: GitAction) -> Seq<char> {
    match action {
        GitAction::Status => "status"@,
        GitAction::Diff => "diff"@,
        GitAction::Log { .. } => "log"@,
        GitAction::Staged => "staged"@,
        GitAction::Show { .. } => "show"@,
        GitAction::Commit { .. } => "commit"@,
        GitAction::Branch => "branch"@,
        GitAction::Checkout { .. } => "checkout"@,
    }
}

/// The arguments of the preparing call: `git add -A` before a commit.
pub open spec fn git_prepare_of(action: GitAction) -> Seq<Seq<char>> {
    match action {
        GitAction::Commit { .. } => seq!["add"@, "-A"@],
        _ => Seq::<Seq<char>>::empty(),
    }
}

/// Whether the plain output of an action notes an empty result.
pub open spec fn git_notes_empty(action: GitAction) -> bool {
    !(action is Commit || action is Branch || action is Checkout)
}

fn push_str(v: &mut Vec<String>, s: &str)
    ensures
        final(v)@.map_values(|a: String| a@) == old(v)@.map_values(|a: String| a@).push(s@),
{
    let ghost before = v@.map_values(|a: String| a@);
    v.push(s.to_owned());
    assert(v@.map_values(|a: String| a@) == before.push(s@));
}

/// How to run a git action.
pub fn git_plan(action: &GitAction) -> (p: GitPlan)
    ensures
        p.prepare@.map_values(|a: String| a@) == git_prepare_of(*action),
        p.args@.map_values(|a: String| a@) == git_args_of(*action),
        p.command@ == git_command_of(*action),
        p.stderr_fallback == !(action is Branch),
        p.empty_note == git_notes_empty(*action),
{
    let mut prepare: Vec<String> = Vec::new();
    let mut args: Vec<String> = Vec::new();
    let command: &str;
    match action {
        GitAction::Status => {
            push_str(&mut args, "status");
            push_str(&mut args, "--short");
            command = "status";
        },
        GitAction::Diff => {
            push_str(&mut args, "diff");
            command = "diff";
        },
        GitAction::Log { count } => {
            push_str(&mut args, "log");
            push_str(&mut args, "--oneline");
            let mut n = "-".to_owned();
            n.append(decimal(*count as u64).as_str());
            push_str(&mut args, n.as_str());
            command = "log";
        },
        GitAction::Staged => {
            push_str(&mut args, "diff");
            push_str(&mut args, "--cached");
            command = "staged";
        },
        GitAction::Show { rev } => {
            push_str(&mut args, "show");
            push_str(&mut args, "--stat");
            push_str(&mut args, "--oneline");
            push_str(&mut args, rev.as_str());
            command = "show";
        },
        GitAction::Commit { msg } => {
            push_str(&mut prepare, "add");
            push_str(&mut prepare, "-A");
            push_str(&mut args, "commit");
            push_str(&mut args, "-m");
            push_str(&mut args, msg.as_str());
            command = "commit";
        },
        GitAction::Branch => {
            push_str(&mut args, "branch");
            command = "branch";
        },
        GitAction::Checkout { branch } => {
            push_str(&mut args, "checkout");
            push_str(&mut args, branch.as_str());
            command = "checkout";
        },
    }
    let is_branch = match action {
        GitAction::Branch => true,
        _ => false,
    };
    let empty_note = match action {
        GitAction::Commit { .. } | GitAction::Branch | GitAction::Checkout { .. } => false,
        _ => true,
    };
    GitPlan { prepare, args, command: command.to_owned(), stderr_fallback: !is_branch, empty_note }
}

/// The label of an error in running the main call: `git command`.
pub fn git_error_label(plan: &GitPlan) -> (m: String)
    ensures
        m@ == "git "@ + plan.command@,
{
    let mut m = "git ".to_owned();
    m.append(plan.command.as_str());
    m
}

/// What a git action reports: its output without surrounding white space
/// (the JSON report) and the plain-text output.
pub struct GitReport {
    pub output: String,
    pub text: String,
}

/// The result of the main call: its standard output, or its standard
/// error where the output is empty and the plan falls back.
pub open spec fn git_result_of(fallback: bool, stdout: Seq<char>, stderr: Seq<char>) -> Seq<char> {
    if fallback { command_output(stdout, stderr) } else { stdout }
}

/// The report of a git action from what its main call printed; an empty
/// result is shown as ``(empty -- `git command`)`` where the plan notes it.
pub fn git_report(plan: &GitPlan, stdout: &str, stderr: &str) -> (r: GitReport)
    ensures
        r.output@ == trim_of(git_result_of(plan.stderr_fallback, stdout@, stderr@)),
        r.text@ == (if plan.empty_note && trim_of(git_result_of(plan.stderr_fallback, stdout@, stderr@)).len() == 0 {
            "(empty -- `git "@ + plan.command@ + "`)"@
        } else {
            trim_end_of(git_result_of(plan.stderr_fallback, stdout@, stderr@))
        }),
{
    let result = if plan.stderr_fallback && stdout.is_empty() { stderr } else { stdout };
    let output = trim(result);
    let text = if plan.empty_note && output.as_str().is_empty() {
        let mut t = "(empty -- `git ".to_owned();
        t.append(plan.command.as_str());
        t.append("`)");
        t
    } else {
        trim_end(result)
    };
    GitReport { output, text }
}

} // verus!
