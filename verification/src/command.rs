//! The commands that the control server and the proxies' control ports
//! receive, and what a proxy's control port does with one.
use vstd::prelude::*;
use crate::text::same_text;

verus! {

/// A command sent to a proxy's control port: `STOP` alone, or `UPDATE` (or
/// `STOP`) with the new remote address as its parameter.
pub struct Command {
    pub property: String,
    pub parameter: Option<String>,
}

/// A command sent to the control server: `UP` starts a proxy from
/// `listen_addr:listen_port` to `remote_addr:remote_port` over `protocol`
/// (`TCP` or `UDP`).
pub struct APICommand {
    pub property: String,
    pub listen_addr: String,
    pub listen_port: u16,
    pub remote_addr: String,
    pub remote_port: u16,
    pub protocol: String,
}

/// What a proxy's control port shares with the proxy: the remote address
/// it forwards to and whether it has been told to stop.
pub struct ControlState {
    pub remote: String,
    pub stop: bool,
}

/// What a command did to the control state.
#[derive(Clone, Copy, Debug, PartialEq, Eq, Structural)]
pub enum ControlOutcome {
    /// `STOP` without a parameter: the proxy is to stop, and the control port
    /// closes.
    Stopped,
    /// `UPDATE`, or `STOP` with a parameter: the remote address was replaced;
    /// the control port goes on.
    Updated,
    /// Any other command: nothing changed; the control port goes on.
    Unknown,
}

/// Whether `command` is a `STOP`.
pub open spec fn is_stop(command: &Command) -> bool {
    command.property@ == "STOP"@
}

/// Whether `command` is an `UPDATE`.
pub open spec fn is_update(command: &Command) -> bool {
    command.property@ == "UPDATE"@
}

/// Whether `command` ends the control port: a `STOP` without a parameter.
pub open spec fn ends_control(command: Command) -> bool {
    is_stop(&command) && command.parameter is None
}

/// Whether `command` carries a new remote address: an `UPDATE`, or a `STOP`,
/// with a parameter.
pub open spec fn carries_remote(command: Command) -> bool {
    (is_update(&command) || is_stop(&command)) && command.parameter is Some
}

/// What one command does to the control state (remote address, stop flag):
/// the new remote address, the new stop flag, and whether the control port
/// keeps listening.
pub open spec fn control_step(remote: Seq<char>, stop: bool, command: Command) -> (Seq<char>, bool, bool) {
    if ends_control(command) {
        (remote, true, false)
    } else if carries_remote(command) {
        (command.parameter->0@, stop, true)
    } else {
        (remote, stop, true)
    }
}

/// The control port reading `commands` in order from the state `(remote,
/// stop)`: the remote address and stop flag at the end, and how many
/// commands it read before it stopped listening (all of them if it never did).
pub open spec fn control_run(remote: Seq<char>, stop: bool, commands: Seq<Command>) -> (Seq<char>, bool, nat)
    decreases commands.len(),
{
    if commands.len() == 0 {
        (remote, stop, 0)
    } else {
        let (r2, s2, listening) = control_step(remote, stop, commands[0]);
        if !listening {
            (r2, s2, 1)
        } else {
            let (r3, s3, n) = control_run(r2, s2, commands.drop_first());
            (r3, s3, n + 1)
        }
    }
}

/// The parameter of the last command of `commands` that carries a remote
/// address, or `initial` when none does.
pub open spec fn last_remote(initial: Seq<char>, commands: Seq<Command>) -> Seq<char>
    decreases commands.len(),
{
    if commands.len() == 0 {
        initial
    } else if carries_remote(commands.last()) {
        commands.last().parameter->0@
    } else {
        last_remote(initial, commands.drop_last())
    }
}

/// Reading a command first and the rest after gives the last remote address
/// of the rest, starting from what the first command left.
proof fn lemma_last_remote_front(initial: Seq<char>, c: Command, rest: Seq<Command>)
    ensures
        last_remote(initial, seq![c] + rest) == last_remote(
            if carries_remote(c) {
                c.parameter->0@
            } else {
                initial
            },
            rest,
        ),
    decreases rest.len(),
{
    let s = seq![c] + rest;
    let start = if carries_remote(c) {
        c.parameter->0@
    } else {
        initial
    };
    if rest.len() == 0 {
        assert(s =~= seq![c]);
        assert(s.last() == c);
        assert(s.drop_last() =~= Seq::<Command>::empty());
        assert(last_remote(initial, Seq::<Command>::empty()) == initial);
        assert(last_remote(start, rest) == start);
    } else {
        assert(s.last() == rest.last());
        assert(s.drop_last() =~= seq![c] + rest.drop_last());
        lemma_last_remote_front(initial, c, rest.drop_last());
        if !carries_remote(rest.last()) {
            assert(last_remote(initial, s) == last_remote(initial, s.drop_last()));
            assert(last_remote(start, rest) == last_remote(start, rest.drop_last()));
        }
    }
}

/// The control port's law over a run of commands: it stops listening right
/// after the first `STOP` without a parameter and reads nothing after it
/// (it reads everything when none comes); its stop flag is only ever set,
/// never cleared, and it is set at the end exactly when it was set at the
/// start or such a `STOP` came; and its remote address is the parameter of
/// the last command read that carried one, or the initial address.
pub proof fn lemma_control_run(remote: Seq<char>, stop: bool, commands: Seq<Command>)
    ensures
        ({
            let (r, s, n) = control_run(remote, stop, commands);
            &&& n <= commands.len()
            &&& forall|i: int| 0 <= i < n - 1 ==> !ends_control(#[trigger] commands[i])
            &&& n < commands.len() ==> n > 0 && ends_control(commands[n - 1])
            &&& n == commands.len() && (n == 0 || !ends_control(commands[n - 1])) ==> forall|i: int|
                0 <= i < commands.len() ==> !ends_control(#[trigger] commands[i])
            &&& s == (stop || (n > 0 && ends_control(commands[n - 1])))
            &&& r == last_remote(remote, commands.take(n as int))
        }),
    decreases commands.len(),
{
    if commands.len() == 0 {
        assert(commands.take(0) =~= Seq::<Command>::empty());
    } else {
        let c = commands[0];
        let rest = commands.drop_first();
        let (r2, s2, listening) = control_step(remote, stop, c);
        if !listening {
            assert(commands.take(1) =~= seq![c] + Seq::<Command>::empty());
            lemma_last_remote_front(remote, c, Seq::<Command>::empty());
            assert(last_remote(remote, Seq::<Command>::empty()) == remote);
        } else {
            lemma_control_run(r2, s2, rest);
            let (r3, s3, n) = control_run(r2, s2, rest);
            assert forall|i: int| 0 <= i < n implies !ends_control(#[trigger] commands[i]) by {
                if 0 < i <= n {
                    assert(commands[i] == rest[i - 1]);
                }
            }
            assert forall|i: int| 1 <= i <= n implies #[trigger] commands[i] == rest[i - 1] by {}
            assert(commands.take((n + 1) as int) =~= seq![c] + rest.take(n as int));
            lemma_last_remote_front(remote, c, rest.take(n as int));
            if n == rest.len() && (n == 0 || !ends_control(rest[n - 1])) {
                assert forall|i: int| 0 <= i < commands.len() implies !ends_control(#[trigger] commands[i]) by {
                    if i > 0 {
                        assert(commands[i] == rest[i - 1]);
                    }
                }
            }
        }
    }
}

impl ControlOutcome {
    /// Whether the control port keeps listening after this outcome.
    pub fn keeps_listening(&self) -> (r: bool)
        ensures
            r == (*self != ControlOutcome::Stopped),
    {
        match self {
            ControlOutcome::Stopped => false,
            _ => true,
        }
    }
}

impl ControlState {
    /// A proxy's control state when it starts: forwarding to `remote`, not
    /// stopped.
    pub fn new(remote: String) -> (r: Self)
        ensures
            r.remote == remote,
            !r.stop,
    {
        ControlState { remote, stop: false }
    }

    /// Applies one command received on the control port: a `STOP` without a
    /// parameter stops the proxy; an `UPDATE`, or a `STOP` with a parameter,
    /// makes the parameter the new remote address. An `UPDATE` must carry its
    /// parameter.
    pub fn handle(&mut self, command: &Command) -> (r: ControlOutcome)
        requires
            is_update(command) ==> command.parameter is Some,
        ensures
            is_stop(command) && command.parameter is None ==> r == ControlOutcome::Stopped
                && final(self).stop && final(self).remote == old(self).remote,
            (is_update(command) || is_stop(command) && command.parameter is Some) ==> r
                == ControlOutcome::Updated
                && final(self).remote == command.parameter->0
                && final(self).stop == old(self).stop,
            !is_stop(command) && !is_update(command) ==> r == ControlOutcome::Unknown
                && *final(self) == *old(self),
            control_step(old(self).remote@, old(self).stop, *command) == (
                final(self).remote@,
                final(self).stop,
                r != ControlOutcome::Stopped,
            ),
    {
        proof {
            reveal_strlit("STOP");
            reveal_strlit("UPDATE");
            assert("STOP"@ != "UPDATE"@) by {
                assert("STOP"@.len() != "UPDATE"@.len());
            }
        }
        if same_text(&command.property, "STOP") {
            match &command.parameter {
                Some(p) => {
                    self.remote = p.clone();
                    ControlOutcome::Updated
                },
                None => {
                    self.stop = true;
                    ControlOutcome::Stopped
                },
            }
        } else if same_text(&command.property, "UPDATE") {
            let parameter = match &command.parameter {
                Some(p) => p.clone(),
                None => {
                    assert(false);
                    String::new()
                },
            };
            self.remote = parameter;
            ControlOutcome::Updated
        } else {
            ControlOutcome::Unknown
        }
    }
}

} // verus!
