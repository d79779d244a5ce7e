//! The push window's plan: which remotes to push to, the `git push`
//! arguments for each, and the error report of a push run.
use vstd::prelude::*;
use crate::text::{chars_of, concat, lemma_string_views_push, string_of, string_views, trim, trim_exec};

verus! {

/// The remotes to push to: all of them for the first item of the remote
/// list ("All remotes"), else the one selected (none if the index is out
/// of range).
pub open spec fn targets_of(remotes: Seq<Seq<char>>, selected: u32) -> Seq<Seq<char>> {
    if selected == 0 {
        remotes
    } else if selected - 1 < remotes.len() {
        seq![remotes[selected - 1]]
    } else {
        Seq::empty()
    }
}

pub fn push_targets(remotes: &Vec<String>, selected: u32) -> (r: Vec<String>)
    ensures
        string_views(r@) == targets_of(string_views(remotes@), selected),
{
    let mut r: Vec<String> = Vec::new();
    if selected == 0 {
        let mut i: usize = 0;
        while i < remotes.len()
            invariant
                i <= remotes.len(),
                string_views(r@) == string_views(remotes@).take(i as int),
            decreases remotes.len() - i,
        {
            let x = remotes[i].clone();
            let ghost before = r@;
            r.push(x);
            proof {
                lemma_string_views_push(before, x);
                assert(string_views(remotes@).take(i + 1) =~= string_views(remotes@).take(
                    i as int,
                ).push(remotes@[i as int]@));
            }
            i = i + 1;
        }
        assert(string_views(remotes@).take(i as int) =~= string_views(remotes@));
    } else if ((selected - 1) as usize) < remotes.len() {
        let x = remotes[(selected - 1) as usize].clone();
        r.push(x);
        assert(string_views(r@) =~= seq![string_views(remotes@)[selected - 1]]);
    } else {
        assert(string_views(r@) =~= Seq::<Seq<char>>::empty());
    }
    r
}

/// The options of the push form.
pub struct PushOptions {
    /// Push all branches (`--all`)
    pub all: bool,
    pub force: bool,
    pub force_with_lease: bool,
    /// Include tags (`--tags`)
    pub tags: bool,
    /// Record the remote branch as upstream (`--set-upstream`)
    pub set_upstream: bool,
}

pub open spec fn flag(on: bool, name: Seq<char>) -> Seq<Seq<char>> {
    if on {
        seq![name]
    } else {
        Seq::empty()
    }
}

/// The refspec: the local branch, or `local:remote` when a remote branch
/// name is given.
pub open spec fn refspec(local: Seq<char>, remote_branch: Seq<char>) -> Seq<char> {
    if remote_branch.len() == 0 {
        local
    } else {
        local + ":"@ + remote_branch
    }
}

/// The arguments of `git push` for one remote. Without "all branches" and
/// without a local branch name there is no refspec (git pushes by its
/// default rules).
pub open spec fn push_args(
    remote: Seq<char>,
    o: PushOptions,
    local: Seq<char>,
    remote_branch: Seq<char>,
) -> Seq<Seq<char>> {
    seq!["push"@] + flag(o.tags, "--tags"@) + flag(o.force, "--force"@) + flag(
        o.force_with_lease,
        "--force-with-lease"@,
    ) + seq![remote] + if o.all {
        seq!["--all"@]
    } else if local.len() > 0 {
        flag(o.set_upstream, "--set-upstream"@) + seq![refspec(local, remote_branch)]
    } else {
        Seq::empty()
    }
}

pub open spec fn arg_lists(v: Seq<Vec<String>>) -> Seq<Seq<Seq<char>>> {
    v.map_values(|a: Vec<String>| string_views(a@))
}

fn push_flag(args: &mut Vec<String>, on: bool, name: &str)
    ensures
        string_views(final(args)@) == string_views(old(args)@) + flag(on, name@),
{
    if on {
        args.push(name.to_owned());
        assert(string_views(args@) =~= string_views(old(args)@) + flag(on, name@));
    } else {
        assert(string_views(args@) =~= string_views(old(args)@) + flag(on, name@));
    }
}

fn push_one(args: &mut Vec<String>, s: String)
    ensures
        string_views(final(args)@) == string_views(old(args)@).push(s@),
{
    let ghost v = s@;
    args.push(s);
    assert(string_views(args@) =~= string_views(old(args)@).push(v));
}

/// One `git push` per target remote; the branch names are the trimmed
/// texts of the form's fields.
pub fn push_commands(
    targets: &Vec<String>,
    o: &PushOptions,
    local_text: &str,
    remote_text: &str,
) -> (r: Vec<Vec<String>>)
    ensures
        arg_lists(r@) == string_views(targets@).map_values(
            |t: Seq<char>| push_args(t, *o, trim(local_text@), trim(remote_text@)),
        ),
{
    let local = trim_exec(&chars_of(local_text));
    let remote_branch = trim_exec(&chars_of(remote_text));
    let ghost want = string_views(targets@).map_values(
        |t: Seq<char>| push_args(t, *o, local@, remote_branch@),
    );
    let mut r: Vec<Vec<String>> = Vec::new();
    let mut i: usize = 0;
    while i < targets.len()
        invariant
            i <= targets.len(),
            want == string_views(targets@).map_values(
                |t: Seq<char>| push_args(t, *o, local@, remote_branch@),
            ),
            arg_lists(r@) == want.take(i as int),
        decreases targets.len() - i,
    {
        let mut args: Vec<String> = Vec::new();
        push_one(&mut args, "push".to_owned());
        push_flag(&mut args, o.tags, "--tags");
        push_flag(&mut args, o.force, "--force");
        push_flag(&mut args, o.force_with_lease, "--force-with-lease");
        push_one(&mut args, targets[i].clone());
        let ghost head = string_views(args@);
        if o.all {
            push_one(&mut args, "--all".to_owned());
        } else if local.len() > 0 {
            push_flag(&mut args, o.set_upstream, "--set-upstream");
            let spec_text = if remote_branch.len() == 0 {
                string_of(&local)
            } else {
                string_of(&concat(&concat(&local, &chars_of(":")), &remote_branch))
            };
            push_one(&mut args, spec_text);
        }
        assert(string_views(args@) =~= push_args(string_views(targets@)[i as int], *o, local@, remote_branch@));
        let ghost before = r@;
        let ghost av = string_views(args@);
        r.push(args);
        assert(arg_lists(r@) =~= arg_lists(before).push(av));
        assert(arg_lists(r@) =~= want.take(i + 1));
        i = i + 1;
    }
    assert(want.take(i as int) =~= want);
    r
}

/// The error block of the push to target `i`: "remote:\nmessage" (the
/// message alone if there is no such target).
pub open spec fn error_block(targets: Seq<Seq<char>>, i: int, msg: Seq<char>) -> Seq<char> {
    if 0 <= i < targets.len() {
        targets[i] + ":\n"@ + msg
    } else {
        msg
    }
}

/// The report of the pushes whose outcomes are `errors` (`None` for a
/// successful push): the error blocks of the failed ones, separated by a
/// blank line; none when all succeeded.
pub open spec fn push_report_spec(targets: Seq<Seq<char>>, errors: Seq<Option<Seq<char>>>) -> Option<Seq<char>>
    decreases errors.len(),
{
    if errors.len() == 0 {
        None
    } else {
        let prev = push_report_spec(targets, errors.drop_last());
        match errors.last() {
            None => prev,
            Some(msg) => {
                let block = error_block(targets, errors.len() - 1, msg);
                match prev {
                    Some(p) => Some(p + "\n\n"@ + block),
                    None => Some(block),
                }
            },
        }
    }
}

pub open spec fn error_views(v: Seq<Option<String>>) -> Seq<Option<Seq<char>>> {
    v.map_values(|e: Option<String>| match e {
        Some(s) => Some(s@),
        None => None,
    })
}

/// The report of a push run (see [`push_report_spec`]).
pub fn push_report(targets: &Vec<String>, errors: &Vec<Option<String>>) -> (r: Option<String>)
    ensures
        match r {
            Some(s) => push_report_spec(string_views(targets@), error_views(errors@)) == Some(s@),
            None => push_report_spec(string_views(targets@), error_views(errors@)) is None,
        },
{
    let ghost tv = string_views(targets@);
    let ghost ev = error_views(errors@);
    let mut acc: Option<Vec<char>> = None;
    let mut i: usize = 0;
    assert(ev.take(0) =~= Seq::<Option<Seq<char>>>::empty());
    while i < errors.len()
        invariant
            i <= errors.len(),
            tv == string_views(targets@),
            ev == error_views(errors@),
            push_report_spec(tv, ev.take(i as int)) == match acc {
                Some(a) => Some(a@),
                None => None,
            },
        decreases errors.len() - i,
    {
        let ghost t = ev.take(i + 1);
        assert(t.drop_last() =~= ev.take(i as int));
        assert(t.last() == ev[i as int]);
        match &errors[i] {
            None => {},
            Some(msg) => {
                let m = chars_of(msg.as_str());
                let block = if i < targets.len() {
                    concat(&concat(&chars_of(targets[i].as_str()), &chars_of(":\n")), &m)
                } else {
                    m
                };
                assert(block@ == error_block(tv, i as int, msg@));
                acc = match acc {
                    Some(prev) => Some(concat(&concat(&prev, &chars_of("\n\n")), &block)),
                    None => Some(block),
                };
            },
        }
        i = i + 1;
    }
    assert(ev.take(i as int) =~= ev);
    match acc {
        Some(a) => Some(string_of(&a)),
        None => None,
    }
}

/// A push run reports an error exactly when one of its pushes failed.
pub proof fn law_report_iff_failure(targets: Seq<Seq<char>>, errors: Seq<Option<Seq<char>>>)
    ensures
        push_report_spec(targets, errors) is None <==> forall|i: int|
            0 <= i < errors.len() ==> #[trigger] errors[i] is None,
    decreases errors.len(),
{
    if errors.len() > 0 {
        let pre = errors.drop_last();
        law_report_iff_failure(targets, pre);
        if push_report_spec(targets, errors) is None {
            assert forall|i: int| 0 <= i < errors.len() implies #[trigger] errors[i] is None by {
                if i < errors.len() - 1 {
                    assert(pre[i] == errors[i]);
                }
            }
        } else {
            if forall|i: int| 0 <= i < errors.len() ==> #[trigger] errors[i] is None {
                assert(errors[errors.len() - 1] is None);
                assert forall|i: int| 0 <= i < pre.len() implies #[trigger] pre[i] is None by {
                    assert(pre[i] == errors[i]);
                }
            }
        }
    }
}

/// How one `git push` is made: "push", then "--tags", "--force",
/// "--force-with-lease" for the options that are on (in that order), then
/// the remote. Pushing all branches ends with "--all". Otherwise, with a
/// local branch name: "--set-upstream" when that option is on (whatever the
/// remote branch field holds), then the refspec - the local name, or
/// "local:remote" when a remote branch name is given; without a local
/// branch name nothing follows the remote.
pub proof fn law_push_arguments(remote: Seq<char>, o: PushOptions, local: Seq<char>, remote_branch: Seq<char>)
    ensures
        ({
            let a = push_args(remote, o, local, remote_branch);
            let nf = (if o.tags { 1int } else { 0int }) + (if o.force { 1int } else { 0int }) + (if o.force_with_lease {
                1int
            } else {
                0int
            });
            &&& a[0] == "push"@
            &&& o.tags ==> a[1] == "--tags"@
            &&& o.force ==> a[1 + (if o.tags { 1int } else { 0int })] == "--force"@
            &&& o.force_with_lease ==> a[nf] == "--force-with-lease"@
            &&& a[1 + nf] == remote
            &&& o.all ==> a.len() == nf + 3 && a[nf + 2] == "--all"@
            &&& !o.all && local.len() > 0 ==> {
                &&& a.len() == nf + 3 + (if o.set_upstream { 1int } else { 0int })
                &&& o.set_upstream ==> a[nf + 2] == "--set-upstream"@
                &&& remote_branch.len() == 0 ==> a[a.len() - 1] == local
                &&& remote_branch.len() > 0 ==> a[a.len() - 1] == local + ":"@ + remote_branch
            }
            &&& !o.all && local.len() == 0 ==> a.len() == nf + 2
        }),
{
}

/// The first item of the remote list ("All remotes") pushes to every
/// remote, in order; item `k` (from 1) to the `k`-th remote alone; an item
/// past the list to none.
pub proof fn law_push_targets(remotes: Seq<Seq<char>>, selected: u32)
    ensures
        selected == 0 ==> targets_of(remotes, selected) == remotes,
        1 <= selected <= remotes.len() ==> targets_of(remotes, selected) == seq![remotes[selected - 1]],
        selected > remotes.len() ==> targets_of(remotes, selected).len() == 0,
{
}

} // verus!
