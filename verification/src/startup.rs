//! The startup files of zsh and bash, and putting shell integration in place or taking it out.

use vstd::prelude::*;

use crate::shell;
use crate::shell::{shell_name, Shell};
use crate::text;
use crate::text::{cat, cat3, has_part, join, lines, same_text};

verus! {

/// The line above the line that reads the managed file.
pub const STARTUP_COMMENT: &'static str = "# Aliaz shell integration";

// ---------------------------------------------------------------------------
// Adding the source line
// ---------------------------------------------------------------------------
/// A text whose last line is ended, or no text.
pub open spec fn line_ended(s: Seq<char>) -> Seq<char> {
    if s.len() > 0 && s.last() != '\n' {
        s.push('\n')
    } else {
        s
    }
}

/// The startup file with the comment and the source line at its end.
pub open spec fn with_source_line(existing: Seq<char>, source_line: Seq<char>) -> Seq<char> {
    line_ended(existing) + STARTUP_COMMENT@ + "\n"@ + source_line + "\n"@
}

/// What to write to a startup file that holds `existing`, nothing where it is not there. `None`
/// where the source line is in it already.
pub open spec fn configured(existing: Option<Seq<char>>, source_line: Seq<char>) -> Option<
    Seq<char>,
> {
    let contents = existing.unwrap_or(Seq::empty());
    if text::contains_text(contents, source_line) {
        None
    } else {
        Some(with_source_line(contents, source_line))
    }
}

/// What to write to a startup file so that it reads the managed file; nothing where it does.
pub fn configure_startup_file(existing: Option<&str>, source_line: &str) -> (r: Option<String>)
    ensures
        match configured(text::seen_option(existing), source_line@) {
            Some(contents) => r matches Some(s) && s@ == contents,
            None => r is None,
        },
{
    let contents = match existing {
        Some(contents) => contents,
        None => "",
    };
    proof {
        reveal_strlit("");
        assert(""@ =~= Seq::<char>::empty());
    }
    if has_part(contents, source_line) {
        return None;
    }
    let mut out = contents.to_owned();
    let chars = text::chars_of(contents);
    if chars.len() > 0 && chars[chars.len() - 1] != '\n' {
        out.push('\n');
    }
    assert(out@ == line_ended(contents@));
    out.append(STARTUP_COMMENT);
    out.append("\n");
    out.append(source_line);
    out.append("\n");
    Some(out)
}

// ---------------------------------------------------------------------------
// Taking the source line out
// ---------------------------------------------------------------------------
/// The lines without every source line, and without a comment just above one.
pub open spec fn kept_lines(all: Seq<Seq<char>>, source_line: Seq<char>) -> Seq<Seq<char>>
    decreases all.len(),
{
    if all.len() == 0 {
        Seq::empty()
    } else if all[0] == STARTUP_COMMENT@ && all.len() > 1 && all[1] == source_line {
        kept_lines(all.skip(2), source_line)
    } else if all[0] == source_line {
        kept_lines(all.skip(1), source_line)
    } else {
        seq![all[0]] + kept_lines(all.skip(1), source_line)
    }
}

/// What is to be done with a startup file.
#[derive(Debug)]
pub enum StartupChange {
    /// Leave it as it is.
    Keep,
    /// Remove it: nothing else was in it.
    Remove,
    /// Write it anew.
    Write(String),
}

/// The same, as mathematics.
#[verifier::ext_equal]
pub enum StartupEdit {
    Keep,
    Remove,
    Write(Seq<char>),
}

impl View for StartupChange {
    type V = StartupEdit;

    open spec fn view(&self) -> StartupEdit {
        match self {
            StartupChange::Keep => StartupEdit::Keep,
            StartupChange::Remove => StartupEdit::Remove,
            StartupChange::Write(s) => StartupEdit::Write(s@),
        }
    }
}

/// What taking the source line out does to a startup file.
pub open spec fn unconfigured(existing: Option<Seq<char>>, source_line: Seq<char>) -> StartupEdit {
    match existing {
        None => StartupEdit::Keep,
        Some(contents) => {
            let all = text::lines_of(contents);
            if !text::contains_text(contents, source_line) || !all.contains(source_line) {
                StartupEdit::Keep
            } else if kept_lines(all, source_line).len() == 0 {
                StartupEdit::Remove
            } else {
                StartupEdit::Write(text::joined(kept_lines(all, source_line), "\n"@).push('\n'))
            }
        },
    }
}

/// What taking the source line out does to a startup file.
pub fn uninstall_startup_file(existing: Option<&str>, source_line: &str) -> (r: StartupChange)
    ensures
        r@ == unconfigured(text::seen_option(existing), source_line@),
{
    let contents = match existing {
        Some(contents) => contents,
        None => {
            return StartupChange::Keep;
        },
    };
    if !has_part(contents, source_line) {
        return StartupChange::Keep;
    }
    let all = lines(contents);
    let ghost want = text::lines_of(contents@);
    let mut kept: Vec<String> = Vec::new();
    let mut removed = false;
    let mut i: usize = 0;
    assert(text::texts(kept@) =~= Seq::<Seq<char>>::empty());
    assert(want.skip(0) =~= want);
    assert(Seq::<Seq<char>>::empty() + kept_lines(want, source_line@) =~= kept_lines(
        want,
        source_line@,
    ));
    while i < all.len()
        invariant
            text::texts(all@) == want,
            i <= all@.len(),
            removed == want.take(i as int).contains(source_line@),
            text::texts(kept@) + kept_lines(want.skip(i as int), source_line@) == kept_lines(
                want,
                source_line@,
            ),
        decreases all@.len() - i,
    {
        let ghost rest = want.skip(i as int);
        let ghost seen = want.take(i as int);
        let ghost before = text::texts(kept@);
        assert(rest[0] == all@[i as int]@);
        assert(want.take(i + 1) =~= seen.push(all@[i as int]@));
        assert(rest.skip(1) =~= want.skip(i + 1));
        if i + 1 < all.len() && same_text(all[i].as_str(), STARTUP_COMMENT) && same_text(
            all[i + 1].as_str(),
            source_line,
        ) {
            proof {
                assert(rest[1] == all@[i + 1]@);
                assert(rest.skip(2) =~= want.skip(i + 2));
                assert(want.take(i + 2)[i + 1] == source_line@);
            }
            removed = true;
            i += 2;
        } else {
            proof {
                if i + 1 < all@.len() {
                    assert(rest[1] == all@[i + 1]@);
                }
                assert(want.take(i + 1).contains(source_line@) == (seen.contains(source_line@)
                    || all@[i as int]@ == source_line@)) by {
                    let more = want.take(i + 1);
                    if more.contains(source_line@) {
                        let k = more.index_of(source_line@);
                        assert(more[k] == source_line@);
                        assert(k == i || seen[k] == source_line@);
                    }
                    if seen.contains(source_line@) {
                        let k = seen.index_of(source_line@);
                        assert(more[k] == seen[k]);
                    }
                    assert(more[i as int] == all@[i as int]@);
                }
            }
            if same_text(all[i].as_str(), source_line) {
                removed = true;
            } else {
                kept.push(all[i].clone());
                assert(text::texts(kept@) =~= before.push(all@[i as int]@));
                assert(text::texts(kept@) + kept_lines(want.skip(i + 1), source_line@) =~= before
                    + (seq![all@[i as int]@] + kept_lines(want.skip(i + 1), source_line@)));
            }
            i += 1;
        }
    }
    assert(want.take(want.len() as int) =~= want);
    assert(want.skip(want.len() as int) =~= Seq::<Seq<char>>::empty());
    assert(text::texts(kept@) =~= kept_lines(want, source_line@));
    if !removed {
        return StartupChange::Keep;
    }
    if kept.len() == 0 {
        return StartupChange::Remove;
    }
    let mut out = join(&kept, "\n");
    out.push('\n');
    StartupChange::Write(out)
}

// ---------------------------------------------------------------------------
// Adding and taking out
// ---------------------------------------------------------------------------
/// The source line is added once: a file that it was added to is left as it is.
pub proof fn law_configured_once(existing: Option<Seq<char>>, source_line: Seq<char>)
    ensures
        configured(existing, source_line) matches Some(contents) ==> configured(
            Some(contents),
            source_line,
        ) is None,
{
    if let Some(contents) = configured(existing, source_line) {
        let head = line_ended(existing.unwrap_or(Seq::empty())) + STARTUP_COMMENT@ + "\n"@;
        let k = head.len() as int;
        assert(contents.subrange(k, k + source_line.len()) =~= source_line);
        assert(text::has_prefix_at(contents, source_line, k));
    }
}

proof fn lemma_kept(all: Seq<Seq<char>>, source_line: Seq<char>)
    requires
        !all.contains(source_line),
    ensures
        kept_lines(all + seq![STARTUP_COMMENT@, source_line], source_line) == all,
    decreases all.len(),
{
    let more = all + seq![STARTUP_COMMENT@, source_line];
    if all.len() == 0 {
        assert(more =~= seq![STARTUP_COMMENT@, source_line]);
        assert(more.skip(2) =~= Seq::<Seq<char>>::empty());
        reveal_with_fuel(kept_lines, 2);
        assert(kept_lines(more, source_line) =~= all);
    } else {
        let rest = all.skip(1);
        assert(all.contains(all[0]));
        assert(!rest.contains(source_line)) by {
            if rest.contains(source_line) {
                let i = rest.index_of(source_line);
                assert(all[i + 1] == source_line);
            }
        }
        lemma_kept(rest, source_line);
        assert(more.skip(1) =~= rest + seq![STARTUP_COMMENT@, source_line]);
        assert(more[0] == all[0]);
        if all.len() > 1 {
            assert(more[1] == all[1]);
            assert(all.contains(all[1]));
        } else {
            assert(more[1] == STARTUP_COMMENT@);
        }
        assert(seq![all[0]] + rest =~= all);
    }
}

proof fn lemma_comment_is_a_line()
    ensures
        !STARTUP_COMMENT@.contains('\n'),
        STARTUP_COMMENT@.len() > 0,
        STARTUP_COMMENT@.last() != '\r',
{
    reveal_strlit("# Aliaz shell integration");
}

/// Taking the source line out of a file that it was added to leaves the lines that were there
/// before, and removes the file where there were none.
pub proof fn law_uninstall_undoes_configure(existing: Option<Seq<char>>, source_line: Seq<char>)
    requires
        configured(existing, source_line) is Some,
        !source_line.contains('\n'),
        source_line.len() > 0 ==> source_line.last() != '\r',
        existing matches Some(contents) ==> contents.len() == 0 || contents.last() != '\r',
    ensures
        ({
            let before = text::lines_of(existing.unwrap_or(Seq::empty()));
            unconfigured(configured(existing, source_line), source_line) == if before.len() == 0 {
                StartupEdit::Remove
            } else {
                StartupEdit::Write(text::joined(before, "\n"@).push('\n'))
            }
        }),
{
    reveal_strlit("\n");
    let old_contents = existing.unwrap_or(Seq::empty());
    let before = text::lines_of(old_contents);
    let ended = line_ended(old_contents);
    let new_contents = with_source_line(old_contents, source_line);
    let first = STARTUP_COMMENT@.push('\n');
    let second = source_line.push('\n');
    assert(new_contents =~= ended + (first + second));
    lemma_comment_is_a_line();
    text::lemma_one_line(STARTUP_COMMENT@);
    text::lemma_one_line(source_line);
    text::lemma_lines_add(first, second);
    text::lemma_lines_add(ended, first + second);
    if ended != old_contents {
        text::lemma_end_last_line(old_contents);
    }
    assert(text::lines_of(new_contents) =~= before + seq![STARTUP_COMMENT@, source_line]);
    assert(!before.contains(source_line)) by {
        if before.contains(source_line) {
            let i = before.index_of(source_line);
            text::lemma_lines_stand_in(old_contents, i);
        }
    }
    lemma_kept(before, source_line);
    law_configured_once(existing, source_line);
    let all = text::lines_of(new_contents);
    assert(all[all.len() - 1] == source_line);
    assert(all.contains(source_line));
}

/// Adding the source line to a file of ended lines and taking it out again gives the file back,
/// unless a line of it ends with a carriage return and a line feed.
pub proof fn law_uninstall_restores_file(contents: Seq<char>, source_line: Seq<char>)
    requires
        configured(Some(contents), source_line) is Some,
        !source_line.contains('\n'),
        source_line.len() > 0 ==> source_line.last() != '\r',
        contents.len() > 0,
        contents.last() == '\n',
        !text::contains_text(contents, seq!['\r', '\n']),
    ensures
        unconfigured(configured(Some(contents), source_line), source_line) == StartupEdit::Write(
            contents,
        ),
{
    reveal_strlit("\n");
    law_uninstall_undoes_configure(Some(contents), source_line);
    let body = contents.drop_last();
    let pieces = text::split_on(body, '\n');
    text::lemma_no_return_before_line_feed(contents);
    text::lemma_join_pieces(body, '\n');
    text::lemma_split_on_nonempty(body, '\n');
    let all = text::split_on(contents, '\n');
    assert(all == pieces.push(Seq::empty()));
    assert(all.drop_last() =~= pieces);
    assert forall|i: int| 0 <= i < pieces.len() implies text::without_return(#[trigger] pieces[i])
        == pieces[i] by {
        assert(all[i] == pieces[i]);
    }
    assert(pieces.map_values(|p: Seq<char>| text::without_return(p)) =~= pieces);
    assert(text::lines_of(contents) =~= pieces);
    assert("\n"@ =~= seq!['\n']);
    assert(body.push('\n') =~= contents);
}

/// A startup file after what was to be done with it.
pub open spec fn edited(existing: Option<Seq<char>>, edit: StartupEdit) -> Option<Seq<char>> {
    match edit {
        StartupEdit::Keep => existing,
        StartupEdit::Remove => None,
        StartupEdit::Write(contents) => Some(contents),
    }
}

/// No line is the source line with a carriage return behind it.
pub open spec fn no_return_behind(existing: Option<Seq<char>>, source_line: Seq<char>) -> bool {
    existing matches Some(contents) ==> !text::lines_of(contents).contains(source_line.push('\r'))
}

proof fn lemma_kept_lines(all: Seq<Seq<char>>, source_line: Seq<char>)
    ensures
        forall|i: int|
            0 <= i < kept_lines(all, source_line).len() ==> all.contains(
                #[trigger] kept_lines(all, source_line)[i],
            ) && kept_lines(all, source_line)[i] != source_line,
    decreases all.len(),
{
    let kept = kept_lines(all, source_line);
    if all.len() > 0 {
        let n: int = if all[0] == STARTUP_COMMENT@ && all.len() > 1 && all[1] == source_line {
            2
        } else {
            1
        };
        let rest = all.skip(n);
        lemma_kept_lines(rest, source_line);
        assert forall|i: int| 0 <= i < kept.len() implies all.contains(#[trigger] kept[i])
            && kept[i] != source_line by {
            let later = kept_lines(rest, source_line);
            let j = i - (kept.len() - later.len());
            if j >= 0 {
                assert(kept[i] == later[j]);
                let k = rest.index_of(later[j]);
                assert(all[k + n] == kept[i]);
            } else {
                assert(kept[i] == all[0]);
            }
        }
    }
}

/// A startup file that the source line was taken out of is left as it is the next time. A source
/// line with a carriage return behind it is left out: it becomes one without when the file is
/// written.
pub proof fn law_taken_out_once(existing: Option<Seq<char>>, source_line: Seq<char>)
    requires
        no_return_behind(existing, source_line),
    ensures
        unconfigured(edited(existing, unconfigured(existing, source_line)), source_line)
            == StartupEdit::Keep,
{
    if let Some(contents) = existing {
        let all = text::lines_of(contents);
        let kept = kept_lines(all, source_line);
        if let StartupEdit::Write(after) = unconfigured(existing, source_line) {
            reveal_strlit("\n");
            assert("\n"@ =~= seq!['\n']);
            lemma_kept_lines(all, source_line);
            text::lemma_lines_hold_no_line_feed(contents);
            assert forall|i: int| 0 <= i < kept.len() implies !(#[trigger] kept[i]).contains(
                '\n',
            ) by {
                let k = all.index_of(kept[i]);
                assert(!all[k].contains('\n'));
            }
            text::lemma_lines_of_joined(kept);
            let lines = text::lines_of(after);
            if lines.contains(source_line) {
                let i = lines.index_of(source_line);
                assert(text::without_return(kept[i]) == source_line);
                assert(kept[i] != source_line);
                assert(kept[i] =~= source_line.push('\r'));
                assert(all.contains(kept[i]));
            }
        }
    }
}

// ---------------------------------------------------------------------------
// Taking everything out
// ---------------------------------------------------------------------------
/// A step of taking shell integration out.
#[derive(Clone, Copy, Debug, PartialEq, Eq, Structural)]
pub enum UninstallStep {
    /// Remove the managed file of a shell where it is there.
    RemoveManagedFile(Shell),
    /// Remove the directory of the managed file of a shell where it is empty.
    RemoveEmptyDirectory(Shell),
    /// Take the source line out of the startup file of a shell.
    CleanStartupFile(Shell),
}

/// The steps, in order.
pub open spec fn uninstall_steps() -> Seq<UninstallStep> {
    seq![
        UninstallStep::RemoveManagedFile(Shell::Zsh),
        UninstallStep::RemoveEmptyDirectory(Shell::Zsh),
        UninstallStep::RemoveManagedFile(Shell::Fish),
        UninstallStep::RemoveEmptyDirectory(Shell::Fish),
        UninstallStep::CleanStartupFile(Shell::Zsh),
        UninstallStep::CleanStartupFile(Shell::Bash),
    ]
}

/// How far taking shell integration out has come.
#[derive(Clone, Copy, Debug, PartialEq, Eq, Structural)]
pub struct Uninstall {
    /// How many steps are done.
    pub done: usize,
    /// Whether any of them removed something that belongs to shell integration.
    pub removed_any: bool,
}

/// Removing a directory does not count.
pub open spec fn step_counts(step: UninstallStep) -> bool {
    !(step is RemoveEmptyDirectory)
}

/// After a step that removed something or not.
pub open spec fn step_done(progress: Uninstall, removed: bool) -> Uninstall {
    if progress.done < uninstall_steps().len() {
        Uninstall {
            done: (progress.done + 1) as usize,
            removed_any: progress.removed_any || (removed && step_counts(
                uninstall_steps()[progress.done as int],
            )),
        }
    } else {
        progress
    }
}

/// The step that is next, if any is left.
pub fn next_uninstall_step(progress: &Uninstall) -> (r: Option<UninstallStep>)
    ensures
        r == if progress.done < uninstall_steps().len() {
            Some(uninstall_steps()[progress.done as int])
        } else {
            None
        },
{
    match progress.done {
        0 => Some(UninstallStep::RemoveManagedFile(Shell::Zsh)),
        1 => Some(UninstallStep::RemoveEmptyDirectory(Shell::Zsh)),
        2 => Some(UninstallStep::RemoveManagedFile(Shell::Fish)),
        3 => Some(UninstallStep::RemoveEmptyDirectory(Shell::Fish)),
        4 => Some(UninstallStep::CleanStartupFile(Shell::Zsh)),
        5 => Some(UninstallStep::CleanStartupFile(Shell::Bash)),
        _ => None,
    }
}

/// Notes whether the step that was next removed something.
pub fn uninstall_shell_integration(progress: &mut Uninstall, removed: bool)
    ensures
        *final(progress) == step_done(*old(progress), removed),
{
    match next_uninstall_step(progress) {
        Some(UninstallStep::RemoveEmptyDirectory(_)) => {
            progress.done = progress.done + 1;
        },
        Some(_) => {
            progress.done = progress.done + 1;
            progress.removed_any = progress.removed_any || removed;
        },
        None => {},
    }
}

/// How far taking shell integration out has come after as many steps as there are answers.
pub open spec fn steps_done(removed: Seq<bool>) -> Uninstall
    decreases removed.len(),
{
    if removed.len() == 0 {
        Uninstall { done: 0, removed_any: false }
    } else {
        step_done(steps_done(removed.drop_last()), removed.last())
    }
}

/// A whole run says that something was removed exactly where one of the steps that count removed
/// something: a managed file, or a source line.
pub proof fn law_uninstall_run(removed: Seq<bool>)
    requires
        removed.len() == uninstall_steps().len(),
    ensures
        steps_done(removed).done == uninstall_steps().len(),
        steps_done(removed).removed_any <==> exists|i: int|
            0 <= i < removed.len() && #[trigger] removed[i] && step_counts(uninstall_steps()[i]),
        steps_done(removed).removed_any == (removed[0] || removed[2] || removed[4] || removed[5]),
{
    reveal_with_fuel(steps_done, 7);
    let r5 = removed.drop_last();
    let r4 = r5.drop_last();
    let r3 = r4.drop_last();
    let r2 = r3.drop_last();
    let r1 = r2.drop_last();
    assert(r1.drop_last().len() == 0);
    assert(steps_done(r1) == step_done(Uninstall { done: 0, removed_any: false }, removed[0]));
    assert(steps_done(r2) == step_done(steps_done(r1), removed[1]));
    assert(steps_done(r3) == step_done(steps_done(r2), removed[2]));
    assert(steps_done(r4) == step_done(steps_done(r3), removed[3]));
    assert(steps_done(r5) == step_done(steps_done(r4), removed[4]));
    assert(steps_done(removed) == step_done(steps_done(r5), removed[5]));
    assert(step_counts(uninstall_steps()[0]) && step_counts(uninstall_steps()[2]));
    assert(step_counts(uninstall_steps()[4]) && step_counts(uninstall_steps()[5]));
    assert(!step_counts(uninstall_steps()[1]) && !step_counts(uninstall_steps()[3]));
}

/// The files of shell integration: whether the managed files are there, and what the startup files
/// hold.
#[verifier::ext_equal]
pub struct Files {
    pub sh_file: bool,
    pub fish_file: bool,
    pub zsh_startup: Option<Seq<char>>,
    pub bash_startup: Option<Seq<char>>,
}

/// What a step does to the files, and whether it removes something. A directory is no file.
pub open spec fn step_effect(files: Files, step: UninstallStep, source_line: Seq<char>) -> (
    Files,
    bool,
) {
    match step {
        UninstallStep::RemoveManagedFile(Shell::Fish) => (
            Files { fish_file: false, ..files },
            files.fish_file,
        ),
        UninstallStep::RemoveManagedFile(_) => (Files { sh_file: false, ..files }, files.sh_file),
        UninstallStep::RemoveEmptyDirectory(_) => (files, false),
        UninstallStep::CleanStartupFile(Shell::Zsh) => {
            let edit = unconfigured(files.zsh_startup, source_line);
            (Files { zsh_startup: edited(files.zsh_startup, edit), ..files }, !(edit is Keep))
        },
        UninstallStep::CleanStartupFile(_) => {
            let edit = unconfigured(files.bash_startup, source_line);
            (Files { bash_startup: edited(files.bash_startup, edit), ..files }, !(edit is Keep))
        },
    }
}

/// The files, and how far taking shell integration out has come, after a number of steps.
pub open spec fn uninstalled(files: Files, source_line: Seq<char>, steps: nat) -> (Files, Uninstall)
    decreases steps,
{
    if steps == 0 {
        (files, Uninstall { done: 0, removed_any: false })
    } else {
        let (before, progress) = uninstalled(files, source_line, (steps - 1) as nat);
        let (after, removed) = step_effect(before, uninstall_steps()[steps - 1], source_line);
        (after, step_done(progress, removed))
    }
}

/// A whole run removes the managed files, takes the source line out of the startup files, and says
/// whether any of these was there.
pub proof fn law_uninstall_takes_everything_out(files: Files, source_line: Seq<char>)
    ensures
        ({
            let (after, progress) = uninstalled(files, source_line, uninstall_steps().len());
            let zsh = unconfigured(files.zsh_startup, source_line);
            let bash = unconfigured(files.bash_startup, source_line);
            &&& after == (Files {
                sh_file: false,
                fish_file: false,
                zsh_startup: edited(files.zsh_startup, zsh),
                bash_startup: edited(files.bash_startup, bash),
            })
            &&& progress.done == uninstall_steps().len()
            &&& progress.removed_any == (files.sh_file || files.fish_file || !(zsh is Keep) || !(
            bash is Keep))
        }),
{
    reveal_with_fuel(uninstalled, 7);
    assert(uninstall_steps().len() == 6);
}

/// Where no file of shell integration is there, a run removes nothing and changes nothing.
pub proof fn law_uninstall_of_nothing(files: Files, source_line: Seq<char>)
    requires
        !files.sh_file,
        !files.fish_file,
        unconfigured(files.zsh_startup, source_line) is Keep,
        unconfigured(files.bash_startup, source_line) is Keep,
    ensures
        uninstalled(files, source_line, uninstall_steps().len()) == (
            files,
            Uninstall { done: 6, removed_any: false },
        ),
{
    law_uninstall_takes_everything_out(files, source_line);
}

/// A second run removes nothing and changes nothing. A source line with a carriage return behind
/// it is left out: it becomes one without when the file is written.
pub proof fn law_uninstall_twice(files: Files, source_line: Seq<char>)
    requires
        no_return_behind(files.zsh_startup, source_line),
        no_return_behind(files.bash_startup, source_line),
    ensures
        ({
            let after = uninstalled(files, source_line, uninstall_steps().len()).0;
            uninstalled(after, source_line, uninstall_steps().len()) == (
                after,
                Uninstall { done: 6, removed_any: false },
            )
        }),
{
    law_uninstall_takes_everything_out(files, source_line);
    law_taken_out_once(files.zsh_startup, source_line);
    law_taken_out_once(files.bash_startup, source_line);
    let after = uninstalled(files, source_line, uninstall_steps().len()).0;
    law_uninstall_of_nothing(after, source_line);
}

/// Where shell integration was put in place for zsh, with no startup file before, a run removes
/// the managed file and the startup file, says so, and leaves the startup file of bash as it was
/// where that does not hold the source line.
pub proof fn law_uninstall_undoes_init(files: Files, source_line: Seq<char>)
    requires
        files.zsh_startup is None,
        unconfigured(files.bash_startup, source_line) is Keep,
        source_line.len() > 0,
        !source_line.contains('\n'),
        source_line.last() != '\r',
    ensures
        ({
            let installed = Files {
                sh_file: true,
                zsh_startup: configured(None, source_line),
                ..files
            };
            let (after, progress) = uninstalled(installed, source_line, uninstall_steps().len());
            &&& after == (Files { sh_file: false, fish_file: false, ..files })
            &&& progress.removed_any
        }),
{
    let installed = Files { sh_file: true, zsh_startup: configured(None, source_line), ..files };
    let none = Seq::<char>::empty();
    assert(configured(None, source_line) is Some) by {
        if text::contains_text(none, source_line) {
            let k = choose|k: int| text::has_prefix_at(none, source_line, k);
        }
    }
    law_uninstall_undoes_configure(None, source_line);
    assert(text::split_on(none, '\n') =~= seq![Seq::<char>::empty()]);
    assert(text::lines_of(none) =~= Seq::<Seq<char>>::empty());
    law_uninstall_takes_everything_out(installed, source_line);
}

/// What uninstalling reports: whether shell integration was there, and what became of the program.
pub open spec fn uninstall_report(removed: bool, binary_removed: bool, binary: Seq<char>) -> Seq<
    Seq<char>,
> {
    seq![
        if removed {
            "Removed shell integration"@
        } else {
            "Shell integration was not installed"@
        },
    ] + (if binary_removed {
        seq!["Removed "@ + binary]
    } else {
        seq![
            "Could not remove "@ + binary + " automatically"@,
            "Delete it manually after closing any shell using aliaz"@,
        ]
    }) + seq!["Kept your aliases database and sync settings"@]
}

/// What uninstalling reports.
pub fn uninstall_lines(removed: bool, binary_removed: bool, binary: &str) -> (r: Vec<String>)
    ensures
        text::texts(r@) == uninstall_report(removed, binary_removed, binary@),
{
    let mut out: Vec<String> = Vec::new();
    if removed {
        out.push("Removed shell integration".to_owned());
    } else {
        out.push("Shell integration was not installed".to_owned());
    }
    if binary_removed {
        out.push(cat("Removed ", binary));
    } else {
        out.push(cat3("Could not remove ", binary, " automatically"));
        out.push("Delete it manually after closing any shell using aliaz".to_owned());
    }
    out.push("Kept your aliases database and sync settings".to_owned());
    assert(text::texts(out@) =~= uninstall_report(removed, binary_removed, binary@));
    out
}

// ---------------------------------------------------------------------------
// Repairing
// ---------------------------------------------------------------------------
/// Which files of shell integration are there.
#[derive(Clone, Copy, Debug, PartialEq, Eq, Structural)]
pub struct Installed {
    /// The managed file of zsh and bash.
    pub sh_file: bool,
    /// The managed file of fish.
    pub fish_file: bool,
    /// The startup file of zsh.
    pub zsh_startup: bool,
    /// The startup file of bash.
    pub bash_startup: bool,
}

/// The shell with the given program name.
pub open spec fn shell_named(name: Option<Seq<char>>) -> Option<Shell> {
    match name {
        Some(n) => if n == "zsh"@ {
            Some(Shell::Zsh)
        } else if n == "bash"@ {
            Some(Shell::Bash)
        } else if n == "fish"@ {
            Some(Shell::Fish)
        } else {
            None
        },
        None => None,
    }
}

/// The shell of the user, by the last part of the path of their login shell.
pub fn shell_from_env(program: Option<&str>) -> (r: Option<Shell>)
    ensures
        r == shell_named(text::seen_option(program)),
{
    match program {
        Some(name) => {
            if same_text(name, "zsh") {
                Some(Shell::Zsh)
            } else if same_text(name, "bash") {
                Some(Shell::Bash)
            } else if same_text(name, "fish") {
                Some(Shell::Fish)
            } else {
                None
            }
        },
        None => None,
    }
}

/// The given shell, or none.
pub open spec fn shell_if(wanted: bool, shell: Shell) -> Seq<Shell> {
    if wanted {
        seq![shell]
    } else {
        Seq::empty()
    }
}

/// The shells of which a file is there; where there is none, the shell of the user, or zsh.
pub open spec fn repaired_shells(found: Installed, program: Option<Seq<char>>) -> Seq<Shell> {
    let there = shell_if(found.sh_file || found.zsh_startup, Shell::Zsh) + shell_if(
        found.sh_file || found.bash_startup,
        Shell::Bash,
    ) + shell_if(found.fish_file, Shell::Fish);
    if there.len() == 0 {
        seq![shell_named(program).unwrap_or(Shell::Zsh)]
    } else {
        there
    }
}

/// The shells whose integration is to be repaired.
pub fn shells_to_repair(found: &Installed, program: Option<&str>) -> (r: Vec<Shell>)
    ensures
        r@ == repaired_shells(*found, text::seen_option(program)),
{
    let mut shells: Vec<Shell> = Vec::new();
    if found.sh_file || found.zsh_startup {
        shells.push(Shell::Zsh);
    }
    if found.sh_file || found.bash_startup {
        shells.push(Shell::Bash);
    }
    if found.fish_file {
        shells.push(Shell::Fish);
    }
    if shells.len() == 0 {
        match shell_from_env(program) {
            Some(shell) => shells.push(shell),
            None => shells.push(Shell::Zsh),
        }
    }
    assert(shells@ =~= repaired_shells(*found, text::seen_option(program)));
    shells
}

/// What repairing a shell reports.
pub open spec fn repair_report(shell: Shell, path: Seq<char>, startup_path: Seq<char>) -> Seq<
    Seq<char>,
> {
    seq!["repaired "@ + shell::name_of(shell) + " integration at "@ + path] + (if shell
        == Shell::Fish {
        Seq::empty()
    } else {
        seq!["configured "@ + startup_path]
    })
}

/// What repairing a shell reports. Fish has no startup file.
pub fn repair_shell_integration(shell: &Shell, path: &str, startup_path: &str) -> (r: Vec<String>)
    ensures
        text::texts(r@) == repair_report(*shell, path@, startup_path@),
{
    let mut messages: Vec<String> = Vec::new();
    let start = cat3("repaired ", shell_name(shell), " integration at ");
    messages.push(cat(start.as_str(), path));
    match shell {
        Shell::Fish => {},
        _ => {
            messages.push(cat("configured ", startup_path));
        },
    }
    assert(text::texts(messages@) =~= repair_report(*shell, path@, startup_path@));
    messages
}

/// What putting shell integration in place reports.
pub open spec fn init_report(shell: Shell, path: Seq<char>, startup_path: Seq<char>) -> Seq<
    Seq<char>,
> {
    seq!["Wrote "@ + path] + (if shell == Shell::Fish {
        Seq::empty()
    } else {
        seq!["Configured "@ + startup_path]
    })
}

/// What putting shell integration in place reports.
pub fn init_lines(shell: &Shell, path: &str, startup_path: &str) -> (r: Vec<String>)
    ensures
        text::texts(r@) == init_report(*shell, path@, startup_path@),
{
    let mut out: Vec<String> = Vec::new();
    out.push(cat("Wrote ", path));
    match shell {
        Shell::Fish => {},
        _ => {
            out.push(cat("Configured ", startup_path));
        },
    }
    assert(text::texts(out@) =~= init_report(*shell, path@, startup_path@));
    out
}

/// Whether the managed files are there.
pub open spec fn integration_report(sh_file: bool, fish_file: bool) -> Seq<Seq<char>> {
    seq![
        if sh_file {
            "zsh/bash integration: ok"@
        } else {
            "zsh/bash integration: missing"@
        },
        if fish_file {
            "fish integration: ok"@
        } else {
            "fish integration: missing"@
        },
    ]
}

/// Whether the managed files are there.
pub fn report_integration_status(sh_file: bool, fish_file: bool) -> (r: Vec<String>)
    ensures
        text::texts(r@) == integration_report(sh_file, fish_file),
{
    let mut out: Vec<String> = Vec::new();
    if sh_file {
        out.push("zsh/bash integration: ok".to_owned());
    } else {
        out.push("zsh/bash integration: missing".to_owned());
    }
    if fish_file {
        out.push("fish integration: ok".to_owned());
    } else {
        out.push("fish integration: missing".to_owned());
    }
    assert(text::texts(out@) =~= integration_report(sh_file, fish_file));
    out
}

// ---------------------------------------------------------------------------
// Which lines stay
// ---------------------------------------------------------------------------
/// The line is taken out: it is a source line, or the comment just above one.
pub open spec fn is_taken_out(all: Seq<Seq<char>>, source_line: Seq<char>, i: int) -> bool {
    all[i] == source_line || (i + 1 < all.len() && all[i] == "# Aliaz shell integration"@ && all[i
        + 1] == source_line)
}

proof fn lemma_kept_positions(all: Seq<Seq<char>>, source_line: Seq<char>) -> (at: Seq<int>)
    ensures
        at.len() == kept_lines(all, source_line).len(),
        forall|n: int|
            0 <= n < at.len() ==> 0 <= #[trigger] at[n] < all.len() && kept_lines(
                all,
                source_line,
            )[n] == all[at[n]],
        forall|m: int, n: int| 0 <= m < n < at.len() ==> #[trigger] at[m] < #[trigger] at[n],
        forall|i: int|
            0 <= i < all.len() ==> (at.contains(i) <==> !#[trigger] is_taken_out(
                all,
                source_line,
                i,
            )),
    decreases all.len(),
{
    let kept = kept_lines(all, source_line);
    if all.len() == 0 {
        Seq::empty()
    } else {
        let pair = all[0] == STARTUP_COMMENT@ && all.len() > 1 && all[1] == source_line;
        let step: int = if pair {
            2
        } else {
            1
        };
        let rest = all.skip(step);
        let later = lemma_kept_positions(rest, source_line);
        let moved = later.map_values(|i: int| i + step);
        let own = pair || all[0] == source_line;
        let at = if own {
            moved
        } else {
            seq![0int] + moved
        };
        let base: int = if own {
            0
        } else {
            1
        };
        assert(at.len() == kept.len());
        assert forall|n: int| 0 <= n < at.len() implies 0 <= #[trigger] at[n] < all.len() && kept[n]
            == all[at[n]] by {
            if n >= base {
                assert(at[n] == later[n - base] + step);
                assert(rest[later[n - base]] == all[at[n]]);
            }
        }
        assert forall|m: int, n: int| 0 <= m < n < at.len() implies #[trigger] at[m]
            < #[trigger] at[n] by {
            if m >= base {
                assert(at[m] == later[m - base] + step);
            }
            assert(at[n] == later[n - base] + step);
        }
        assert forall|i: int| 0 <= i < all.len() implies (at.contains(i) <==> !#[trigger]
            is_taken_out(all, source_line, i)) by {
            if i >= step {
                assert(rest[i - step] == all[i]);
                if i + 1 < all.len() {
                    assert(rest[i - step + 1] == all[i + 1]);
                }
                assert(is_taken_out(all, source_line, i) == is_taken_out(
                    rest,
                    source_line,
                    i - step,
                ));
                if later.contains(i - step) {
                    let n = later.index_of(i - step);
                    assert(at[n + base] == i);
                }
                if at.contains(i) {
                    let n = at.index_of(i);
                    assert(at[n] == i);
                    assert(later[n - base] == i - step);
                }
            } else {
                if at.contains(i) {
                    let n = at.index_of(i);
                    assert(at[n] == i);
                    assert(n < base) by {
                        if n >= base {
                            assert(at[n] == later[n - base] + step);
                        }
                    }
                }
                if !own {
                    assert(at[0] == 0);
                }
            }
        }
        at
    }
}

/// Every line that is neither a source line nor the comment just above one stays, in its order, and
/// no other line does.
pub proof fn law_other_lines_stay(all: Seq<Seq<char>>, source_line: Seq<char>)
    ensures
        exists|at: Seq<int>|
            {
                &&& #[trigger] at.len() == kept_lines(all, source_line).len()
                &&& forall|n: int|
                    0 <= n < at.len() ==> 0 <= #[trigger] at[n] < all.len() && kept_lines(
                        all,
                        source_line,
                    )[n] == all[at[n]]
                &&& forall|m: int, n: int|
                    0 <= m < n < at.len() ==> #[trigger] at[m] < #[trigger] at[n]
                &&& forall|i: int|
                    0 <= i < all.len() ==> (at.contains(i) <==> !#[trigger] is_taken_out(
                        all,
                        source_line,
                        i,
                    ))
            },
{
    let at = lemma_kept_positions(all, source_line);
    assert(at.len() == kept_lines(all, source_line).len());
}

/// Lines that follow other lines are gone through by themselves, unless the others end with the
/// comment and a source line follows.
pub proof fn law_lines_stay_in_turn(
    a: Seq<Seq<char>>,
    b: Seq<Seq<char>>,
    source_line: Seq<char>,
)
    requires
        a.len() > 0 && b.len() > 0 && a.last() == "# Aliaz shell integration"@ ==> b[0]
            != source_line,
    ensures
        kept_lines(a + b, source_line) == kept_lines(a, source_line) + kept_lines(b, source_line),
    decreases a.len(),
{
    let all = a + b;
    if a.len() == 0 {
        assert(all =~= b);
        assert(kept_lines(a, source_line) + kept_lines(b, source_line) =~= kept_lines(
            b,
            source_line,
        ));
    } else {
        let pair = a[0] == STARTUP_COMMENT@ && a.len() > 1 && a[1] == source_line;
        let step: int = if pair {
            2
        } else {
            1
        };
        assert(all.skip(step) =~= a.skip(step) + b);
        assert(all[0] == a[0]);
        if all.len() > 1 {
            assert(all[1] == if a.len() > 1 {
                a[1]
            } else {
                b[0]
            });
        }
        if a.skip(step).len() > 0 {
            assert(a.skip(step).last() == a.last());
        }
        law_lines_stay_in_turn(a.skip(step), b, source_line);
        assert(kept_lines(all, source_line) =~= kept_lines(a, source_line) + kept_lines(
            b,
            source_line,
        ));
    }
}

/// Lines without a source line all stay.
pub proof fn law_plain_lines_stay(all: Seq<Seq<char>>, source_line: Seq<char>)
    requires
        !all.contains(source_line),
    ensures
        kept_lines(all, source_line) == all,
    decreases all.len(),
{
    if all.len() > 0 {
        let rest = all.skip(1);
        assert(all.contains(all[0]));
        if all.len() > 1 {
            assert(all.contains(all[1]));
        }
        assert(!rest.contains(source_line)) by {
            if rest.contains(source_line) {
                let i = rest.index_of(source_line);
                assert(all[i + 1] == source_line);
            }
        }
        law_plain_lines_stay(rest, source_line);
        assert(kept_lines(all, source_line) =~= all);
    }
}

/// What stands before and behind the comment and the source line stays, and so does what stands
/// before and behind a source line without the comment.
pub proof fn law_lines_around_stay(
    a: Seq<Seq<char>>,
    b: Seq<Seq<char>>,
    source_line: Seq<char>,
)
    requires
        !a.contains(source_line),
        !b.contains(source_line),
    ensures
        kept_lines(a + seq!["# Aliaz shell integration"@, source_line] + b, source_line) == a + b,
        (a.len() > 0 ==> a.last() != "# Aliaz shell integration"@) ==> kept_lines(
            a + seq![source_line] + b,
            source_line,
        ) == a + b,
{
    let comment = STARTUP_COMMENT@;
    let both = seq![comment, source_line];
    law_plain_lines_stay(b, source_line);
    lemma_kept(a, source_line);
    if b.len() > 0 {
        assert(b.contains(b[0]));
    }
    assert((a + both).last() == source_line);
    law_lines_stay_in_turn(a + both, b, source_line);
    if a.len() > 0 ==> a.last() != comment {
        law_plain_lines_stay(a, source_line);
        let one = seq![source_line];
        assert(one.skip(1) =~= Seq::<Seq<char>>::empty());
        assert(kept_lines(one.skip(1), source_line) =~= Seq::<Seq<char>>::empty());
        assert(kept_lines(one, source_line) =~= Seq::<Seq<char>>::empty());
        law_lines_stay_in_turn(a, one, source_line);
        assert(a + Seq::<Seq<char>>::empty() =~= a);
        assert((a + one).last() == source_line);
        law_lines_stay_in_turn(a + one, b, source_line);
    }
}

/// A startup file is left as it is if and only if it is not there or none of its lines is the
/// source line. It is removed where nothing would stay, and otherwise written anew with the lines
/// that stay.
pub proof fn law_taking_out(existing: Option<Seq<char>>, source_line: Seq<char>)
    ensures
        existing is None ==> unconfigured(existing, source_line) is Keep,
        existing matches Some(contents) ==> {
            let all = text::lines_of(contents);
            let edit = unconfigured(existing, source_line);
            &&& edit is Keep <==> !all.contains(source_line)
            &&& edit is Remove <==> all.contains(source_line) && forall|i: int|
                0 <= i < all.len() ==> #[trigger] is_taken_out(all, source_line, i)
            &&& edit matches StartupEdit::Write(left) ==> {
                &&& left.last() == '\n'
                &&& text::split_on(left.drop_last(), '\n') == kept_lines(all, source_line)
            }
        },
{
    if let Some(contents) = existing {
        let all = text::lines_of(contents);
        let kept = kept_lines(all, source_line);
        if all.contains(source_line) {
            let i = all.index_of(source_line);
            text::lemma_lines_stand_in(contents, i);
            let at = lemma_kept_positions(all, source_line);
            if kept.len() == 0 {
                assert forall|i: int| 0 <= i < all.len() implies #[trigger] is_taken_out(
                    all,
                    source_line,
                    i,
                ) by {
                    assert(!at.contains(i));
                }
            } else {
                assert(at.contains(at[0]));
                assert(!is_taken_out(all, source_line, at[0]));
                let left = text::joined(kept, "\n"@);
                reveal_strlit("\n");
                assert("\n"@ =~= seq!['\n']);
                text::lemma_lines_hold_no_line_feed(contents);
                assert forall|n: int| 0 <= n < kept.len() implies !(#[trigger] kept[n]).contains(
                    '\n',
                ) by {
                    assert(kept[n] == all[at[n]]);
                }
                text::lemma_split_joined(kept, '\n');
                assert(left.push('\n').drop_last() =~= left);
            }
        }
    }
}

/// The source line is added if and only if the file does not hold it yet. What the file holds
/// stays, and the comment and the source line are its last lines.
pub proof fn law_adding(existing: Option<Seq<char>>, source_line: Seq<char>)
    ensures
        ({
            let contents = match existing {
                Some(contents) => contents,
                None => Seq::empty(),
            };
            let added = "# Aliaz shell integration"@ + seq!['\n'] + source_line + seq!['\n'];
            &&& configured(existing, source_line) is None <==> exists|a: Seq<char>, b: Seq<char>|
                contents == #[trigger] (a + source_line + b)
            &&& configured(existing, source_line) matches Some(after) ==> {
                ||| (contents.len() == 0 || contents.last() == '\n') && after == contents + added
                ||| contents.len() > 0 && contents.last() != '\n' && after == contents + seq!['\n']
                    + added
            }
        }),
{
    reveal_strlit("\n");
    assert("\n"@ =~= seq!['\n']);
    let contents = match existing {
        Some(contents) => contents,
        None => Seq::empty(),
    };
    text::law_contains_text(contents, source_line);
    let added = STARTUP_COMMENT@ + seq!['\n'] + source_line + seq!['\n'];
    if let Some(after) = configured(existing, source_line) {
        if contents.len() == 0 || contents.last() == '\n' {
            assert(after =~= contents + added);
        } else {
            assert(after =~= contents + seq!['\n'] + added);
        }
    }
}

// ---------------------------------------------------------------------------
// Which shells, and what is reported
// ---------------------------------------------------------------------------
/// Each shell is known by its own name, and no other name is that of a shell.
pub proof fn law_shell_names(shell: Shell, name: Seq<char>)
    ensures
        shell_named(Some(shell::name_of(shell))) == Some(shell),
        shell_named(None) is None,
        shell_named(Some(name)) matches Some(s) ==> shell::name_of(s) == name,
        shell_named(Some(name)) is None ==> name != "zsh"@ && name != "bash"@ && name != "fish"@,
{
    reveal_strlit("zsh");
    reveal_strlit("bash");
    reveal_strlit("fish");
    assert("zsh"@.len() != "bash"@.len());
    assert("zsh"@.len() != "fish"@.len());
    assert("bash"@[0] != "fish"@[0]);
}

/// A shell is repaired where one of its files is there, zsh first and fish last; the managed file
/// counts for zsh and bash alike. Where nothing is there, the shell of the user is repaired, or zsh.
pub proof fn law_repaired_shells(found: Installed, program: Option<Seq<char>>)
    ensures
        ({
            let shells = repaired_shells(found, program);
            let zsh = found.sh_file || found.zsh_startup;
            let bash = found.sh_file || found.bash_startup;
            let any = zsh || bash || found.fish_file;
            &&& any ==> (shells.contains(Shell::Zsh) <==> zsh)
            &&& any ==> (shells.contains(Shell::Bash) <==> bash)
            &&& any ==> (shells.contains(Shell::Fish) <==> found.fish_file)
            &&& shells.no_duplicates()
            &&& zsh ==> shells[0] == Shell::Zsh
            &&& found.fish_file ==> shells.last() == Shell::Fish
            &&& !any ==> shells.len() == 1
            &&& !any && shell_named(program) is Some ==> shells[0] == shell_named(program).unwrap()
            &&& !any && shell_named(program) is None ==> shells[0] == Shell::Zsh
        }),
{
    let zsh = shell_if(found.sh_file || found.zsh_startup, Shell::Zsh);
    let bash = shell_if(found.sh_file || found.bash_startup, Shell::Bash);
    let fish = shell_if(found.fish_file, Shell::Fish);
    let there = zsh + bash + fish;
    assert forall|s: Shell| #[trigger] there.contains(s) <==> zsh.contains(s) || bash.contains(s)
        || fish.contains(s) by {
        vstd::seq_lib::lemma_seq_concat_contains_all_elements(zsh, bash, s);
        vstd::seq_lib::lemma_seq_concat_contains_all_elements(zsh + bash, fish, s);
    }
    if found.sh_file || found.zsh_startup {
        assert(zsh[0] == Shell::Zsh);
    }
    if found.sh_file || found.bash_startup {
        assert(bash[0] == Shell::Bash);
    }
    if found.fish_file {
        assert(fish[0] == Shell::Fish);
    }
    if there.len() > 0 {
        assert(there.contains(there[0]));
    }
}

/// What is kept of a startup file: all of it, nothing, or what is written.
pub proof fn law_edited(existing: Option<Seq<char>>, contents: Seq<char>)
    ensures
        edited(existing, StartupEdit::Keep) == existing,
        edited(existing, StartupEdit::Remove) is None,
        edited(existing, StartupEdit::Write(contents)) == Some(contents),
{
}

/// The steps take out every file of shell integration: the managed file of zsh and bash, that of
/// fish, and the source line from the startup files of zsh and bash. Each happens once.
pub proof fn law_every_file_has_a_step(step: UninstallStep)
    ensures
        uninstall_steps().no_duplicates(),
        uninstall_steps().contains(UninstallStep::RemoveManagedFile(Shell::Zsh)),
        uninstall_steps().contains(UninstallStep::RemoveManagedFile(Shell::Fish)),
        uninstall_steps().contains(UninstallStep::RemoveEmptyDirectory(Shell::Zsh)),
        uninstall_steps().contains(UninstallStep::RemoveEmptyDirectory(Shell::Fish)),
        uninstall_steps().contains(UninstallStep::CleanStartupFile(Shell::Zsh)),
        uninstall_steps().contains(UninstallStep::CleanStartupFile(Shell::Bash)),
        uninstall_steps().len() == 6,
        step_counts(step) <==> step is RemoveManagedFile || step is CleanStartupFile,
{
    let all = uninstall_steps();
    assert(all[0] == UninstallStep::RemoveManagedFile(Shell::Zsh));
    assert(all[1] == UninstallStep::RemoveEmptyDirectory(Shell::Zsh));
    assert(all[2] == UninstallStep::RemoveManagedFile(Shell::Fish));
    assert(all[3] == UninstallStep::RemoveEmptyDirectory(Shell::Fish));
    assert(all[4] == UninstallStep::CleanStartupFile(Shell::Zsh));
    assert(all[5] == UninstallStep::CleanStartupFile(Shell::Bash));
}

/// The reports name the files: the managed one always, and the startup file for every shell but
/// fish.
pub proof fn law_reports_name_files(shell: Shell, path: Seq<char>, startup_path: Seq<char>)
    ensures
        ({
            let init = init_report(shell, path, startup_path);
            let repair = repair_report(shell, path, startup_path);
            &&& init[0] == "Wrote "@ + path
            &&& text::contains_text(repair[0], path)
            &&& text::contains_text(repair[0], shell::name_of(shell))
            &&& shell == Shell::Fish ==> init.len() == 1 && repair.len() == 1
            &&& shell != Shell::Fish ==> init.len() == 2 && repair.len() == 2
            &&& shell != Shell::Fish ==> init[1] == "Configured "@ + startup_path
            &&& shell != Shell::Fish ==> repair[1] == "configured "@ + startup_path
        }),
{
    let line = repair_report(shell, path, startup_path)[0];
    let none = Seq::<char>::empty();
    text::law_contains_text(line, path);
    text::law_contains_text(line, shell::name_of(shell));
    let name = shell::name_of(shell);
    assert(line =~= ("repaired "@ + name + " integration at "@) + path + none);
    assert(line =~= "repaired "@ + name + (" integration at "@ + path));
}

/// Uninstalling reports whether shell integration was there, names the program whether or not it
/// could be removed, and says last what was kept.
pub proof fn law_uninstall_report(removed: bool, binary_removed: bool, binary: Seq<char>)
    ensures
        ({
            let report = uninstall_report(removed, binary_removed, binary);
            &&& report.len() == if binary_removed {
                3nat
            } else {
                4nat
            }
            &&& report[0] == if removed {
                "Removed shell integration"@
            } else {
                "Shell integration was not installed"@
            }
            &&& text::contains_text(report[1], binary)
            &&& binary_removed ==> report[1] == "Removed "@ + binary
            &&& report.last() == "Kept your aliases database and sync settings"@
        }),
{
    let report = uninstall_report(removed, binary_removed, binary);
    let none = Seq::<char>::empty();
    text::law_contains_text(report[1], binary);
    if binary_removed {
        assert(report[1] =~= "Removed "@ + binary + none);
    } else {
        assert(report[1] =~= "Could not remove "@ + binary + " automatically"@);
    }
}

/// Whether each managed file is there is reported by itself.
pub proof fn law_integration_report(sh_file: bool, fish_file: bool, other: bool)
    ensures
        integration_report(sh_file, fish_file).len() == 2,
        integration_report(sh_file, fish_file)[0] == integration_report(sh_file, other)[0],
        integration_report(sh_file, fish_file)[1] == integration_report(other, fish_file)[1],
        integration_report(true, other)[0] == "zsh/bash integration: ok"@,
        integration_report(false, other)[0] == "zsh/bash integration: missing"@,
        integration_report(other, true)[1] == "fish integration: ok"@,
        integration_report(other, false)[1] == "fish integration: missing"@,
{
}

/// Once every step is done, nothing more is noted. Before that, each step is noted once, and what was
/// removed stays noted.
pub proof fn law_steps_are_noted(progress: Uninstall, removed: bool)
    ensures
        progress.done >= 6 ==> step_done(progress, removed) == progress,
        progress.done < 6 ==> step_done(progress, removed).done == progress.done + 1,
        progress.removed_any ==> step_done(progress, removed).removed_any,
        !removed ==> step_done(progress, removed).removed_any == progress.removed_any,
{
}

} // verus!
