//! The redirection applier: what a child process has to do to its
//! descriptors before it runs its command.

use crate::elems_in_command::Redirect;
use crate::text::{chars_of, i32_value, parse_i32};
use vstd::prelude::*;

verus! {

/// The descriptor of the standard input.
pub const STDIN_FD: i32 = 0;

/// The descriptor of the standard output.
pub const STDOUT_FD: i32 = 1;

/// The descriptor of the standard error output.
pub const STDERR_FD: i32 = 2;

/// The number that stands for "no descriptor".
pub const NO_FD: i32 = -1;

/// One step on the descriptors of a process.
#[derive(Debug)]
pub enum FdAction {
    /// Close the descriptor.
    Close { fd: i32 },
    /// Make `to` a copy of `from`; `from` stays open.
    Dup { from: i32, to: i32 },
    /// Make `to` a copy of `from`, then close `from`.
    Move { from: i32, to: i32 },
    /// Open the file for writing, made if there is none and emptied if there
    /// is one, and move its descriptor to `to`.
    OpenWrite { path: String, to: i32 },
    /// Open the file for reading and move its descriptor to `to`.
    OpenRead { path: String, to: i32 },
}

/// The mathematical value of an [`FdAction`].
pub enum FdActionView {
    Close { fd: i32 },
    Dup { from: i32, to: i32 },
    Move { from: i32, to: i32 },
    OpenWrite { path: Seq<char>, to: i32 },
    OpenRead { path: Seq<char>, to: i32 },
}

impl View for FdAction {
    type V = FdActionView;

    open spec fn view(&self) -> FdActionView {
        match self {
            FdAction::Close { fd } => FdActionView::Close { fd: *fd },
            FdAction::Dup { from, to } => FdActionView::Dup { from: *from, to: *to },
            FdAction::Move { from, to } => FdActionView::Move { from: *from, to: *to },
            FdAction::OpenWrite { path, to } => FdActionView::OpenWrite { path: path@, to: *to },
            FdAction::OpenRead { path, to } => FdActionView::OpenRead { path: path@, to: *to },
        }
    }
}

/// Why a redirection cannot be applied.
#[derive(Clone, Copy, Debug, PartialEq, Eq, Structural)]
pub enum RedirectError {
    /// The redirection names no target.
    EmptyTarget,
    /// What follows `&` in the target is no descriptor number.
    InvalidFdNumber,
}

/// The steps of a plan, as values.
pub open spec fn actions_view(actions: Seq<FdAction>) -> Seq<FdActionView> {
    actions.map_values(|action: FdAction| action@)
}

/// The steps that one redirection asks for. `>` to a target that starts
/// with `&` copies the descriptor named after the `&` onto `left_fd`; `>` to
/// any other target opens it for writing on `left_fd`; `&>` opens the target
/// for writing on the standard output and copies that onto the standard
/// error output; `<` opens the target for reading on `left_fd`. Any other
/// direction asks for nothing. A redirection without a target is refused, and
/// so is one to `&` that no descriptor number follows.
pub open spec fn redirect_plan(left_fd: i32, direction: Seq<char>, path: Seq<char>) -> Result<
    Seq<FdActionView>,
    RedirectError,
> {
    if path.len() == 0 {
        Err(RedirectError::EmptyTarget)
    } else if direction == seq!['>'] {
        if path[0] == '&' {
            match i32_value(path.skip(1)) {
                Some(number) => Ok(seq![FdActionView::Dup { from: number as i32, to: left_fd }]),
                None => Err(RedirectError::InvalidFdNumber),
            }
        } else {
            Ok(seq![FdActionView::OpenWrite { path: path, to: left_fd }])
        }
    } else if direction == seq!['&', '>'] {
        Ok(
            seq![
                FdActionView::OpenWrite { path: path, to: STDOUT_FD },
                FdActionView::Dup { from: STDOUT_FD, to: STDERR_FD },
            ],
        )
    } else if direction == seq!['<'] {
        Ok(seq![FdActionView::OpenRead { path: path, to: left_fd }])
    } else {
        Ok(Seq::empty())
    }
}

/// The steps that the first `n` redirections of a list ask for, in list
/// order; the refusal of the first redirection that is refused, if one is.
pub open spec fn redirects_plan(redirects: Seq<Redirect>, n: int) -> Result<
    Seq<FdActionView>,
    RedirectError,
>
    decreases n,
{
    if n <= 0 {
        Ok(Seq::empty())
    } else {
        match redirects_plan(redirects, n - 1) {
            Err(e) => Err(e),
            Ok(before) => {
                let r = redirects[n - 1];
                match redirect_plan(r.left_fd, r.direction_str@, r.path@) {
                    Err(e) => Err(e),
                    Ok(more) => Ok(before + more),
                }
            },
        }
    }
}

/// The steps that connect a stage to its pipes: the read end of the pipe
/// to the next stage is closed, the write end of that pipe becomes the
/// standard output, and the read end of the pipe from the stage before
/// becomes the standard input. An end that is `-1` is not there.
pub open spec fn pipe_plan(pipein: i32, pipeout: i32, prevpipein: i32) -> Seq<FdActionView> {
    (if pipein != NO_FD {
        seq![FdActionView::Close { fd: pipein }]
    } else {
        Seq::empty()
    }) + (if pipeout != NO_FD {
        seq![FdActionView::Move { from: pipeout, to: STDOUT_FD }]
    } else {
        Seq::empty()
    }) + (if prevpipein != NO_FD {
        seq![FdActionView::Move { from: prevpipein, to: STDIN_FD }]
    } else {
        Seq::empty()
    })
}

/// Everything that a child has to do to its descriptors: the steps of its
/// redirections in list order, then the steps that connect it to its pipes.
pub open spec fn child_io_plan(
    pipein: i32,
    pipeout: i32,
    prevpipein: i32,
    redirects: Seq<Redirect>,
) -> Result<Seq<FdActionView>, RedirectError> {
    match redirects_plan(redirects, redirects.len() as int) {
        Err(e) => Err(e),
        Ok(steps) => Ok(steps + pipe_plan(pipein, pipeout, prevpipein)),
    }
}

/// Plans one redirection, as [`redirect_plan`] says, and adds its steps to
/// `plan`.
fn set_redirect(r: &Redirect, plan: &mut Vec<FdAction>) -> (res: Result<(), RedirectError>)
    ensures
        match res {
            Ok(_) => redirect_plan(r.left_fd, r.direction_str@, r.path@) matches Ok(steps)
                && actions_view(final(plan)@) == actions_view(old(plan)@) + steps,
            Err(e) => redirect_plan(r.left_fd, r.direction_str@, r.path@) matches Err(cause)
                && cause == e && *final(plan) == *old(plan),
        },
{
    let path = chars_of(r.path.as_str());
    let direction = chars_of(r.direction_str.as_str());
    if path.len() == 0 {
        return Err(RedirectError::EmptyTarget);
    }
    let ghost before = actions_view(plan@);
    if direction.len() == 1 && direction[0] == '>' {
        proof {
            assert(direction@ =~= seq!['>']);
        }
        if path[0] == '&' {
            match parse_i32(&path, 1) {
                Some(number) => {
                    plan.push(FdAction::Dup { from: number, to: r.left_fd });
                },
                None => {
                    return Err(RedirectError::InvalidFdNumber);
                },
            }
        } else {
            plan.push(FdAction::OpenWrite { path: r.path.clone(), to: r.left_fd });
        }
        proof {
            assert(actions_view(plan@) =~= before + redirect_plan(
                r.left_fd,
                r.direction_str@,
                r.path@,
            )->Ok_0);
        }
    } else if direction.len() == 2 && direction[0] == '&' && direction[1] == '>' {
        proof {
            assert(direction@ =~= seq!['&', '>']);
        }
        plan.push(FdAction::OpenWrite { path: r.path.clone(), to: STDOUT_FD });
        plan.push(FdAction::Dup { from: STDOUT_FD, to: STDERR_FD });
        proof {
            assert(actions_view(plan@) =~= before + redirect_plan(
                r.left_fd,
                r.direction_str@,
                r.path@,
            )->Ok_0);
        }
    } else if direction.len() == 1 && direction[0] == '<' {
        proof {
            assert(direction@ =~= seq!['<']);
        }
        plan.push(FdAction::OpenRead { path: r.path.clone(), to: r.left_fd });
        proof {
            assert(actions_view(plan@) =~= before + redirect_plan(
                r.left_fd,
                r.direction_str@,
                r.path@,
            )->Ok_0);
        }
    } else {
        proof {
            assert(direction@ != seq!['>']) by {
                if direction@ == seq!['>'] {
                    assert(direction@.len() == 1 && direction@[0] == '>');
                }
            }
            assert(direction@ != seq!['<']) by {
                if direction@ == seq!['<'] {
                    assert(direction@.len() == 1 && direction@[0] == '<');
                }
            }
            assert(direction@ != seq!['&', '>']) by {
                if direction@ == seq!['&', '>'] {
                    assert(direction@.len() == 2 && direction@[0] == '&' && direction@[1] == '>');
                }
            }
            assert(actions_view(plan@) =~= before + Seq::<FdActionView>::empty());
        }
    }
    Ok(())
}

/// Plans what a child has to do to its descriptors before it runs: the
/// steps of its redirections in list order, then the steps that connect it to
/// its pipes, as [`child_io_plan`] says. A redirection that cannot be applied
/// is reported, the first one in list order, and no plan is made.
pub fn set_child_io(pipein: i32, pipeout: i32, prevpipein: i32, redirects: &Vec<Redirect>) -> (res:
    Result<Vec<FdAction>, RedirectError>)
    ensures
        match res {
            Ok(plan) => child_io_plan(pipein, pipeout, prevpipein, redirects@) matches Ok(steps)
                && steps == actions_view(plan@),
            Err(e) => child_io_plan(pipein, pipeout, prevpipein, redirects@) matches Err(cause)
                && cause == e,
        },
{
    let mut plan: Vec<FdAction> = Vec::new();
    let mut i: usize = 0;
    proof {
        assert(actions_view(plan@) =~= Seq::<FdActionView>::empty());
    }
    while i < redirects.len()
        invariant
            i <= redirects@.len(),
            redirects_plan(redirects@, i as int) matches Ok(steps) && steps == actions_view(plan@),
        decreases redirects@.len() - i,
    {
        match set_redirect(&redirects[i], &mut plan) {
            Ok(_) => {},
            Err(e) => {
                proof {
                    lemma_refusal_stays(redirects@, i + 1, redirects@.len() as int);
                }
                return Err(e);
            },
        }
        i += 1;
    }
    let ghost steps = actions_view(plan@);
    if pipein != NO_FD {
        plan.push(FdAction::Close { fd: pipein });
    }
    if pipeout != NO_FD {
        plan.push(FdAction::Move { from: pipeout, to: STDOUT_FD });
    }
    if prevpipein != NO_FD {
        plan.push(FdAction::Move { from: prevpipein, to: STDIN_FD });
    }
    proof {
        assert(actions_view(plan@) =~= steps + pipe_plan(pipein, pipeout, prevpipein));
    }
    Ok(plan)
}

/// Once a redirection of the list is refused, the refusal stands for every
/// longer part of the list.
pub proof fn lemma_refusal_stays(redirects: Seq<Redirect>, n: int, m: int)
    requires
        0 <= n <= m,
        redirects_plan(redirects, n) is Err,
    ensures
        redirects_plan(redirects, m) == redirects_plan(redirects, n),
    decreases m - n,
{
    if n < m {
        lemma_refusal_stays(redirects, n, m - 1);
    }
}

} // verus!
