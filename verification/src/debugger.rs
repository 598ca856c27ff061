//! The session: the commands of the user, checked against whether a
//! child is there, and turned into requests to the process controller
//! and the unwinder.
//!
//! The session starts no process and prints nothing. For `run` it hands
//! the arguments back and is then given the child that was started; for
//! every command it returns a report of what happened.

use crate::debugger_command::{parse_breakpoint, target_of, BreakpointSpec, Command, DebuggerCommand, Target};
use crate::inferior::{
    all_mapped, killed, memory_with, poke_at, resumed, table_with, taken_over, Inferior, Status,
};
use crate::symbols::SymbolTable;
use crate::tracee::{Request, TraceError, Tracee, WaitEvent, SIGTRAP};
use crate::unwinder::{
    entry_name, frame_at, frame_views, resolve_frame, walk_end, walk_frames, Backtrace, StackFrame,
    WalkEnd,
};
use crate::word::word_base;
use vstd::prelude::*;

verus! {

/// What a command led to.
#[derive(Clone, Debug, PartialEq, Eq)]
pub enum Report {
    /// `run`: the program is to be started with these arguments and with
    /// tracing switched on, and the child handed to `launched`.
    Launch(Vec<String>),
    /// The program could not be started, or did not stop for tracing.
    SpawnFailed,
    /// The command needs a child and there is none.
    NoProcess,
    /// The child is stopped by the signal `signal` at `program_counter`,
    /// which is `location` in the source where the symbol data knows it.
    Stopped { signal: i32, program_counter: usize, location: Option<StackFrame> },
    /// The child exited with this code and is gone.
    Exited(i32),
    /// The child was ended by this signal and is gone.
    Signaled(i32),
    /// The call chain of the stopped child.
    Trace(Backtrace),
    /// The registers of the child could not be read for a call chain.
    TraceFailed(TraceError),
    /// A breakpoint is configured at `address`. With a child there it
    /// was patched in at once; `failed` says why that did not work.
    BreakpointSet { address: usize, failed: Option<TraceError> },
    /// The breakpoint specification names no address.
    InvalidBreakpoint,
    /// The session is over.
    Quit,
    /// The child could not be resumed. It was ended, and the session
    /// cannot go on.
    Fatal(TraceError),
}

/// The address that a breakpoint target stands for.
pub open spec fn target_address(symbols: SymbolTable, target: Target) -> Option<usize> {
    match target {
        Target::Address(addr) => Some(addr),
        Target::Line(number) => symbols.line_address(number),
        Target::Function(name) => symbols.function_address(name),
    }
}

/// The address that the breakpoint specification `spec` stands for.
pub open spec fn spec_address(symbols: SymbolTable, spec: Seq<char>) -> Option<usize> {
    match target_of(spec) {
        Some(target) => target_address(symbols, target),
        None => None,
    }
}

/// The configured addresses after `command`: a breakpoint command whose
/// specification stands for an address adds that address at the end,
/// and nothing else changes them.
pub open spec fn configured_after(
    symbols: SymbolTable,
    configured: Seq<usize>,
    command: Command,
) -> Seq<usize> {
    match command {
        Command::Breakpoint(spec) => match spec_address(symbols, spec) {
            Some(addr) => configured.push(addr),
            None => configured,
        },
        _ => configured,
    }
}

/// The configured addresses after the commands of `commands`, one after
/// the other, starting from `configured`.
pub open spec fn configured_through(
    symbols: SymbolTable,
    configured: Seq<usize>,
    commands: Seq<Command>,
) -> Seq<usize>
    decreases commands.len(),
{
    if commands.len() == 0 {
        configured
    } else {
        configured_after(
            symbols,
            configured_through(symbols, configured, commands.drop_last()),
            commands.last(),
        )
    }
}

/// The addresses that the breakpoint commands among `commands` stand
/// for, in the order of the commands.
pub open spec fn resolved_history(symbols: SymbolTable, commands: Seq<Command>) -> Seq<usize>
    decreases commands.len(),
{
    if commands.len() == 0 {
        Seq::empty()
    } else {
        let earlier = resolved_history(symbols, commands.drop_last());
        match commands.last() {
            Command::Breakpoint(spec) => match spec_address(symbols, spec) {
                Some(addr) => earlier.push(addr),
                None => earlier,
            },
            _ => earlier,
        }
    }
}

/// The configured addresses are the history of the breakpoint
/// specifications that stood for an address, whatever else was asked
/// for in between: after any commands, they are those configured
/// before, followed by the addresses of those specifications in order.
pub proof fn law_configured_is_history(
    symbols: SymbolTable,
    configured: Seq<usize>,
    commands: Seq<Command>,
)
    ensures
        configured_through(symbols, configured, commands) == configured + resolved_history(
            symbols,
            commands,
        ),
    decreases commands.len(),
{
    if commands.len() == 0 {
        assert(configured + Seq::<usize>::empty() =~= configured);
    } else {
        law_configured_is_history(symbols, configured, commands.drop_last());
        let earlier = resolved_history(symbols, commands.drop_last());
        match commands.last() {
            Command::Breakpoint(spec) => match spec_address(symbols, spec) {
                Some(addr) => {
                    assert((configured + earlier).push(addr) =~= configured + earlier.push(addr));
                },
                None => {},
            },
            _ => {},
        }
    }
}

/// Whether `location` is what the symbol data has for `pc`: the frame
/// that `pc` resolves to, or nothing where it does not resolve.
pub open spec fn locates(symbols: SymbolTable, pc: usize, location: Option<StackFrame>) -> bool {
    match location {
        Some(frame) => frame_at(symbols, pc) == Some(frame@),
        None => frame_at(symbols, pc) is None,
    }
}

/// Whether `report` is the report of a resume that ended in `outcome`: a
/// stop is reported with its signal, its program counter and the place
/// in the source; an exit with its code; a death by signal with the
/// signal; an error as fatal.
pub open spec fn reports_outcome(
    symbols: SymbolTable,
    outcome: Result<Status, TraceError>,
    report: Report,
) -> bool {
    match outcome {
        Ok(Status::Stopped(s, pc)) => report matches Report::Stopped {
            signal,
            program_counter,
            location,
        } && signal == s && program_counter == pc && locates(symbols, pc, location),
        Ok(Status::Exited(code)) => report == Report::Exited(code),
        Ok(Status::Signaled(signal)) => report == Report::Signaled(signal),
        Err(error) => report == Report::Fatal(error),
    }
}

/// The outcome of a resume that `report` reports, where it reports one.
pub open spec fn outcome_reported(report: Report) -> Option<Result<Status, TraceError>> {
    match report {
        Report::Stopped { signal, program_counter, .. } => Some(
            Ok(Status::Stopped(signal, program_counter)),
        ),
        Report::Exited(code) => Some(Ok(Status::Exited(code))),
        Report::Signaled(signal) => Some(Ok(Status::Signaled(signal))),
        Report::Fatal(error) => Some(Err(error)),
        _ => None,
    }
}

/// Whether `now` is `before` with one more entry at its end.
pub open spec fn one_more<A>(before: Seq<A>, now: Seq<A>) -> bool {
    now.len() == before.len() + 1 && now.drop_last() == before
}

/// Whether `entry` records how the child `child` was let go after a
/// resume that ended in `status`: the child as it came out of the
/// resume, and the child as it was left, which is the same child, or
/// that child killed.
pub open spec fn let_go<T: Tracee>(
    child: Inferior<T>,
    status: Result<Status, TraceError>,
    ended: bool,
    entry: (Inferior<T>, Inferior<T>),
) -> bool {
    &&& resumed(child, entry.0, status)
    &&& if ended {
        killed(entry.0, entry.1)
    } else {
        entry.1 == entry.0
    }
}

/// Whether `report`, the child `kept` and the children let go are what
/// resuming the child `child` once leads to, where `base` are the
/// children let go before. The report is that of the status the resume
/// ended in. A child that stops is kept as it came out of the resume;
/// one that ended is let go; one that could not be resumed is killed
/// and let go.
pub open spec fn continued<T: Tracee>(
    child: Inferior<T>,
    symbols: SymbolTable,
    base: Seq<(Inferior<T>, Inferior<T>)>,
    kept: Option<Inferior<T>>,
    departed: Seq<(Inferior<T>, Inferior<T>)>,
    report: Report,
) -> bool {
    match report {
        Report::Stopped { signal, program_counter, location } => {
            &&& locates(symbols, program_counter, location)
            &&& departed == base
            &&& kept matches Some(after) && resumed(
                child,
                after,
                Ok(Status::Stopped(signal, program_counter)),
            )
        },
        Report::Exited(code) => kept is None && one_more(base, departed) && let_go(
            child,
            Ok(Status::Exited(code)),
            false,
            departed.last(),
        ),
        Report::Signaled(signal) => kept is None && one_more(base, departed) && let_go(
            child,
            Ok(Status::Signaled(signal)),
            false,
            departed.last(),
        ),
        Report::Fatal(error) => kept is None && one_more(base, departed) && let_go(
            child,
            Err(error),
            true,
            departed.last(),
        ),
        _ => false,
    }
}

/// The children let go before the one that `report` tells of, where
/// `departed` are the children let go by now: all of them where the
/// report is of a child that is kept, all but the last where it is of a
/// child that was let go.
pub open spec fn let_go_before<T: Tracee>(
    departed: Seq<(Inferior<T>, Inferior<T>)>,
    report: Report,
) -> Seq<(Inferior<T>, Inferior<T>)> {
    if report is Exited || report is Signaled || report is Fatal {
        departed.drop_last()
    } else {
        departed
    }
}

/// Whether `report` is the report of the call chain of `child`: the
/// chain as the walk from the child's registers finds it, or the news
/// that the registers could not be read.
pub open spec fn traced<T: Tracee>(child: Inferior<T>, symbols: SymbolTable, report: Report) -> bool {
    match report {
        Report::Trace(t) => {
            &&& forall|i: int|
                0 <= i < t.frames@.len() ==> frame_at(
                    symbols,
                    (#[trigger] t.frames@[i]).program_counter,
                ) == Some(t.frames@[i]@)
            &&& t.frames@.len() > 0 ==> t.frames@[0].program_counter == t.program_counter
            &&& t.frames@.len() == 0 <==> frame_at(symbols, t.program_counter) is None
            &&& t.end == WalkEnd::Entry <==> t.frames@.len() > 0
                && t.frames@.last()@.function_name == entry_name()
            &&& child.modelled() ==> {
                &&& child.present()
                &&& t.program_counter == child.register_file().pc
                &&& frame_views(t.frames@) == walk_frames(
                    symbols,
                    child.memory(),
                    child.register_file().pc,
                    child.register_file().frame_base,
                    usize::MAX as nat,
                )
                &&& t.end == walk_end(
                    symbols,
                    child.memory(),
                    child.register_file().pc,
                    child.register_file().frame_base,
                    usize::MAX as nat,
                )
            }
        },
        Report::TraceFailed(_) => child.modelled() ==> !child.present(),
        _ => false,
    }
}

/// Whether `after` is the child `before` after one try to patch a
/// breakpoint in at `addr`, which failed with `failed` or did not fail.
/// An address that was patched already is left alone; a new one is
/// patched with one write; a failure changes no table.
pub open spec fn patched<T: Tracee>(
    before: Inferior<T>,
    after: Inferior<T>,
    addr: usize,
    failed: Option<TraceError>,
) -> bool {
    let known = before.breakpoints().contains_key(addr);
    &&& known ==> failed is None && after.breakpoints() == before.breakpoints() && after.tracee()
        == before.tracee()
    &&& failed is Some ==> after.breakpoints() == before.breakpoints()
    &&& failed is None ==> after.breakpoints().contains_key(addr) && after.breakpoints().remove(
        addr,
    ) == before.breakpoints().remove(addr)
    &&& after.requests() == before.requests() || after.requests() == before.requests().push(
        poke_at(addr),
    )
    &&& failed is None && !known ==> after.requests() == before.requests().push(poke_at(addr))
    &&& before.modelled() ==> {
        &&& after.modelled()
        &&& failed is None <==> known || before.memory().contains_key(word_base(addr))
        &&& failed is None ==> after.breakpoints() == table_with(
            before.breakpoints(),
            before.memory(),
            addr,
        ) && after.memory() == memory_with(before.breakpoints(), before.memory(), addr)
        &&& failed is Some ==> after.tracee() == before.tracee()
    }
}

/// The report for the outcome of a resume.
pub fn outcome_report(symbols: &SymbolTable, outcome: Result<Status, TraceError>) -> (report:
    Report)
    ensures
        reports_outcome(*symbols, outcome, report),
        outcome_reported(report) == Some(outcome),
{
    match outcome {
        Ok(Status::Stopped(signal, program_counter)) => {
            let location = resolve_frame(symbols, program_counter);
            Report::Stopped { signal, program_counter, location }
        },
        Ok(Status::Exited(code)) => Report::Exited(code),
        Ok(Status::Signaled(signal)) => Report::Signaled(signal),
        Err(error) => Report::Fatal(error),
    }
}

/// The report for the outcome of a walk of the call chain.
pub fn trace_report(outcome: Result<Backtrace, TraceError>) -> (report: Report)
    ensures
        outcome matches Ok(trace) ==> report == Report::Trace(trace),
        outcome matches Err(error) ==> report == Report::TraceFailed(error),
{
    match outcome {
        Ok(trace) => Report::Trace(trace),
        Err(error) => Report::TraceFailed(error),
    }
}

/// The report for a breakpoint configured at `address`, where `outcome`
/// is that of patching it into the child, if there is a child.
pub fn patch_report(address: usize, outcome: Option<Result<(), TraceError>>) -> (report: Report)
    ensures
        report == (Report::BreakpointSet {
            address,
            failed: match outcome {
                Some(Err(error)) => Some(error),
                _ => None,
            },
        }),
{
    match outcome {
        Some(Err(error)) => Report::BreakpointSet { address, failed: Some(error) },
        _ => Report::BreakpointSet { address, failed: None },
    }
}

/// A debugging session on one program.
pub struct Debugger<T: Tracee> {
    target: String,
    inferior: Option<Inferior<T>>,
    debug_data: SymbolTable,
    break_point: Vec<usize>,
    departed: Ghost<Seq<(Inferior<T>, Inferior<T>)>>,
    taken: Ghost<Option<Inferior<T>>>,
}

impl<T: Tracee> Debugger<T> {
    /// The path of the program.
    pub closed spec fn target(&self) -> Seq<char> {
        self.target@
    }

    /// The child, while there is one.
    pub closed spec fn inferior(&self) -> Option<Inferior<T>> {
        self.inferior
    }

    /// The symbol data of the program.
    pub closed spec fn symbols(&self) -> SymbolTable {
        self.debug_data
    }

    /// The configured breakpoint addresses, in the order in which they
    /// were set.
    pub closed spec fn configured(&self) -> Seq<usize> {
        self.break_point@
    }

    /// The children that the session has let go, each twice: as the
    /// session last had it in hand before it let it go, and as it was
    /// left, which is the same, or that child killed.
    pub closed spec fn departed(&self) -> Seq<(Inferior<T>, Inferior<T>)> {
        self.departed@
    }

    /// What the last taking over of a started child gave: the child as
    /// it was before it was resumed, or nothing where it could not be
    /// taken over.
    pub closed spec fn taken(&self) -> Option<Inferior<T>> {
        self.taken@
    }

    /// Whether a child is there.
    pub open spec fn live(&self) -> bool {
        self.inferior() is Some
    }

    /// Whether `after` has the program, the symbol data and the
    /// configured addresses of this session.
    pub open spec fn same_setup(&self, after: &Self) -> bool {
        &&& after.configured() == self.configured()
        &&& after.symbols() == self.symbols()
        &&& after.target() == self.target()
    }

    /// Whether `departed` are the children let go once the child that
    /// is there, if one is, was killed and let go.
    pub open spec fn dismissal_gives(&self, departed: Seq<(Inferior<T>, Inferior<T>)>) -> bool {
        match self.inferior() {
            Some(child) => one_more(self.departed(), departed) && departed.last().0 == child
                && killed(child, departed.last().1),
            None => departed == self.departed(),
        }
    }

    /// Whether `after` is this session once the child that is there, if
    /// one is, was killed and let go.
    pub open spec fn dismisses_to(&self, after: &Self) -> bool {
        &&& self.same_setup(after)
        &&& after.inferior() is None
        &&& self.dismissal_gives(after.departed())
        &&& after.taken() == self.taken()
    }

    /// Whether `after` and `report` are what `contin` makes of this
    /// session: without a child nothing but the report that there is
    /// none; with a child, what resuming it once leads to.
    pub open spec fn continues_to(&self, after: &Self, report: Report) -> bool {
        &&& self.same_setup(after)
        &&& after.taken() == self.taken()
        &&& match self.inferior() {
            None => report is NoProcess && after.inferior() is None && after.departed()
                == self.departed(),
            Some(child) => continued(
                child,
                self.symbols(),
                self.departed(),
                after.inferior(),
                after.departed(),
                report,
            ),
        }
    }

    /// Whether `after` and `report` are what taking over `started`
    /// makes of this session: the child that is there, if one is, is
    /// killed and let go; without a started child the report is that
    /// the spawn failed; a started child is resumed once.
    pub open spec fn adopts_to(
        &self,
        after: &Self,
        started: Option<Inferior<T>>,
        report: Report,
    ) -> bool {
        &&& self.same_setup(after)
        &&& after.taken() == started
        &&& match started {
            None => report is SpawnFailed && after.inferior() is None && self.dismissal_gives(
                after.departed(),
            ),
            Some(child) => self.dismissal_gives(let_go_before(after.departed(), report))
                && continued(
                child,
                self.symbols(),
                let_go_before(after.departed(), report),
                after.inferior(),
                after.departed(),
                report,
            ),
        }
    }

    /// Whether `after` and `report` are what `insert_bp` makes of this
    /// session for the address `addr`: the address is configured, and
    /// patched into the child if there is one.
    pub open spec fn breaks_at(&self, after: &Self, addr: usize, report: Report) -> bool {
        &&& after.configured() == self.configured().push(addr)
        &&& after.symbols() == self.symbols()
        &&& after.target() == self.target()
        &&& after.departed() == self.departed()
        &&& after.taken() == self.taken()
        &&& report matches Report::BreakpointSet { address, failed } && address == addr && match (
            self.inferior(),
            after.inferior(),
        ) {
            (Some(child), Some(kept)) => patched(child, kept, addr, failed),
            (None, None) => failed is None,
            _ => false,
        }
    }

    /// A session on the program at `target`, with no child and no
    /// breakpoint.
    pub fn new(target: &str, symbols: SymbolTable) -> (debugger: Debugger<T>)
        ensures
            debugger.target() == target@,
            debugger.symbols() == symbols,
            debugger.configured() == Seq::<usize>::empty(),
            debugger.departed() == Seq::<(Inferior<T>, Inferior<T>)>::empty(),
            debugger.taken() is None,
            !debugger.live(),
    {
        Debugger {
            target: target.to_owned(),
            inferior: None,
            debug_data: symbols,
            break_point: Vec::new(),
            departed: Ghost(Seq::empty()),
            taken: Ghost(None),
        }
    }

    /// Returns the path of the program.
    pub fn target_path(&self) -> (path: &String)
        ensures
            path@ == self.target(),
    {
        &self.target
    }

    /// Returns the configured breakpoint addresses.
    pub fn configured_breakpoints(&self) -> (addresses: &Vec<usize>)
        ensures
            addresses@ == self.configured(),
    {
        &self.break_point
    }

    /// Returns the child, while there is one.
    pub fn process(&self) -> (inferior: Option<&Inferior<T>>)
        ensures
            inferior is Some <==> self.live(),
            inferior matches Some(i) ==> Some(*i) == self.inferior(),
    {
        self.inferior.as_ref()
    }

    /// Says whether a child is there.
    pub fn has_process(&self) -> (live: bool)
        ensures
            live == self.live(),
    {
        self.inferior.is_some()
    }

    /// Resolves a breakpoint specification to an address: a raw address
    /// stands for itself, a line number and a function name are looked
    /// up in the symbol data.
    pub fn resolve(&self, spec: &str) -> (addr: Option<usize>)
        ensures
            addr == spec_address(self.symbols(), spec@),
    {
        match parse_breakpoint(spec) {
            Some(BreakpointSpec::Address(addr)) => Some(addr),
            Some(BreakpointSpec::Line(number)) => self.debug_data.address_for_line(number),
            Some(BreakpointSpec::Function(name)) => self.debug_data.address_for_function(
                name.as_str(),
            ),
            None => None,
        }
    }

    /// Kills the child that is there, if one is, and lets it go.
    pub fn dismiss(&mut self)
        ensures
            old(self).dismisses_to(final(self)),
    {
        match self.inferior.take() {
            Some(mut inferior) => {
                let ghost child = inferior;
                inferior.kill();
                proof {
                    self.departed@ = self.departed@.push((child, inferior));
                    assert(self.departed().drop_last() =~= old(self).departed());
                }
            },
            None => {},
        }
    }

    /// Takes the child back after a resume that ended in `outcome`, and
    /// reports the outcome. A child that is stopped is kept; a child
    /// that exited or was ended by a signal is let go; a child that
    /// could not be resumed is killed and let go. A child that the
    /// session still held is killed and let go first.
    pub fn settle(&mut self, inferior: Inferior<T>, outcome: Result<Status, TraceError>) -> (report:
        Report)
        ensures
            old(self).same_setup(final(self)),
            final(self).taken() == old(self).taken(),
            reports_outcome(old(self).symbols(), outcome, report),
            outcome_reported(report) == Some(outcome),
            old(self).dismissal_gives(let_go_before(final(self).departed(), report)),
            match outcome {
                Ok(Status::Stopped(_, _)) => final(self).inferior() == Some(inferior),
                Ok(_) => final(self).inferior() is None && final(self).departed().len() > 0
                    && final(self).departed().last() == (inferior, inferior),
                Err(_) => final(self).inferior() is None && final(self).departed().len() > 0
                    && final(self).departed().last().0 == inferior && killed(
                    inferior,
                    final(self).departed().last().1,
                ),
            },
    {
        self.dismiss();
        let ghost base = self.departed();
        let mut inferior = inferior;
        match outcome {
            Ok(Status::Stopped(_, _)) => {
                self.inferior = Some(inferior);
            },
            Ok(_) => {
                proof {
                    self.departed@ = self.departed@.push((inferior, inferior));
                }
            },
            Err(_) => {
                let ghost came_out = inferior;
                inferior.kill();
                proof {
                    self.departed@ = self.departed@.push((came_out, inferior));
                }
            },
        }
        let report = outcome_report(&self.debug_data, outcome);
        proof {
            if !(outcome matches Ok(Status::Stopped(_, _))) {
                assert(self.departed().drop_last() =~= base);
            }
        }
        report
    }

    /// Resumes the child and reports where that led. Without a child
    /// nothing is asked of anyone. A child that stops is kept; a child
    /// that ended is let go; where the child cannot be resumed its state
    /// is unknown: it is killed and let go, and the report is fatal.
    pub fn contin(&mut self) -> (report: Report)
        ensures
            old(self).continues_to(final(self), report),
    {
        let mut inferior = match self.inferior.take() {
            Some(inferior) => inferior,
            None => {
                return Report::NoProcess;
            },
        };
        let outcome = inferior.cont();
        self.settle(inferior, outcome)
    }

    /// Configures a breakpoint at `addr` and, with a child there,
    /// patches it in at once. A patch that fails is reported, and the
    /// address stays configured.
    pub fn insert_bp(&mut self, addr: usize) -> (report: Report)
        ensures
            old(self).breaks_at(final(self), addr, report),
    {
        self.break_point.push(addr);
        match self.inferior.take() {
            Some(mut inferior) => {
                let outcome = inferior.insert_breakpoint(addr);
                self.inferior = Some(inferior);
                patch_report(addr, Some(outcome))
            },
            None => patch_report(addr, None),
        }
    }

    /// Takes over the child `started`, if one could be started, and
    /// resumes it once. Without one the report is that the spawn failed.
    /// A child that the session still held is killed and let go first.
    pub fn adopt(&mut self, started: Option<Inferior<T>>) -> (report: Report)
        ensures
            old(self).adopts_to(final(self), started, report),
    {
        self.dismiss();
        proof {
            self.taken@ = started;
        }
        match started {
            Some(inferior) => {
                self.inferior = Some(inferior);
                self.contin()
            },
            None => Report::SpawnFailed,
        }
    }

    /// Carries out one command and reports what it led to.
    pub fn run(&mut self, command: DebuggerCommand) -> (report: Report)
        ensures
            final(self).configured() == configured_after(
                old(self).symbols(),
                old(self).configured(),
                command@,
            ),
            final(self).symbols() == old(self).symbols(),
            final(self).target() == old(self).target(),
            match command {
                DebuggerCommand::Quit => report is Quit && old(self).dismisses_to(final(self)),
                DebuggerCommand::Run(args) => report == Report::Launch(args) && old(self).dismisses_to(final(self)),
                DebuggerCommand::Contin => old(self).continues_to(final(self), report),
                DebuggerCommand::Backtrace => final(self).inferior() == old(self).inferior()
                    && final(self).departed() == old(self).departed() && final(self).taken() == old(self).taken() && match old(self).inferior() {
                    Some(child) => traced(child, old(self).symbols(), report),
                    None => report is NoProcess,
                },
                DebuggerCommand::Breakpoint(spec) => match spec_address(old(self).symbols(), spec@) {
                    Some(addr) => old(self).breaks_at(final(self), addr, report),
                    None => report is InvalidBreakpoint && final(self).inferior() == old(self).inferior() && final(self).departed() == old(self).departed() && final(self).taken() == old(self).taken(),
                },
            },
    {
        match command {
            DebuggerCommand::Run(args) => {
                self.dismiss();
                Report::Launch(args)
            },
            DebuggerCommand::Contin => self.contin(),
            DebuggerCommand::Backtrace => match &self.inferior {
                Some(inferior) => trace_report(inferior.print_backtrace(&self.debug_data)),
                None => Report::NoProcess,
            },
            DebuggerCommand::Quit => {
                self.dismiss();
                Report::Quit
            },
            DebuggerCommand::Breakpoint(breakpoint) => {
                match self.resolve(breakpoint.as_str()) {
                    Some(addr) => self.insert_bp(addr),
                    None => Report::InvalidBreakpoint,
                }
            },
        }
    }

    /// Takes the child that was started for `run`, or the news that
    /// none could be started. A child that the session still held is
    /// killed and let go first. The new child is taken over with every
    /// configured breakpoint patched in and resumed once; where it
    /// cannot be taken over, the report is that the spawn failed.
    pub fn launched(&mut self, child: Option<T>) -> (report: Report)
        ensures
            match child {
                Some(c) => taken_over(c, old(self).configured(), final(self).taken()),
                None => final(self).taken() is None,
            },
            old(self).adopts_to(final(self), final(self).taken(), report),
            report is SpawnFailed <==> final(self).taken() is None,
            child matches Some(c) ==> (c.modelled() ==> (report is SpawnFailed <==> !(c.pending()
                == Some(WaitEvent::Stopped(SIGTRAP)) && c.present() && all_mapped(
                c.memory(),
                old(self).configured(),
            )))),
    {
        self.dismiss();
        let started = match child {
            Some(tracee) => Inferior::new(tracee, &self.break_point),
            None => None,
        };
        self.adopt(started)
    }
}

} // verus!
