use vstd::prelude::*;

verus! {

/// On which side of the duplication of the process the launcher finds
/// itself, or that the process could not be duplicated.
#[derive(Copy, Clone, Debug, PartialEq, Eq, Structural)]
pub enum Forked {
    /// The window manager itself.
    Parent,
    /// The new process, which is to become the program.
    Child,
    /// No new process came to be.
    Failed,
}

/// One step of a launch.
#[derive(Copy, Clone, Debug, PartialEq, Eq)]
pub enum LaunchStep<'a> {
    /// Set up the thread support of the server connection anew; a failure
    /// ends the window manager.
    InitThreads,
    /// Let go of the window manager's connection to the display server.
    CloseConnection,
    /// Replace the process image with the program; a failure ends this
    /// process only.
    Exec { command: &'a str, args: &'a [&'a str] },
    /// End the window manager with the error of the duplication.
    Abort,
}

/// The steps of a launch on each side of the duplication. The child parts
/// with the server connection first and then becomes the program; the parent
/// touches the thread support of the connection only now, after the
/// duplication, and goes on.
pub open spec fn launch_plan<'a>(forked: Forked, command: &'a str, args: &'a [&'a str]) -> Seq<
    LaunchStep<'a>,
> {
    match forked {
        Forked::Parent => seq![LaunchStep::InitThreads],
        Forked::Child => seq![LaunchStep::CloseConnection, LaunchStep::Exec { command, args }],
        Forked::Failed => seq![LaunchStep::Abort],
    }
}

/// Decides what a process does after the duplication that launches
/// `command` with `args`.
pub fn spawn<'a>(forked: Forked, command: &'a str, args: &'a [&'a str]) -> (steps: Vec<
    LaunchStep<'a>,
>)
    ensures
        steps@ == launch_plan(forked, command, args),
{
    let mut steps: Vec<LaunchStep<'a>> = Vec::new();
    match forked {
        Forked::Parent => {
            steps.push(LaunchStep::InitThreads);
        },
        Forked::Child => {
            steps.push(LaunchStep::CloseConnection);
            steps.push(LaunchStep::Exec { command, args });
        },
        Forked::Failed => {
            steps.push(LaunchStep::Abort);
        },
    }
    steps
}

} // verus!
