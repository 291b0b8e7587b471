//! The command line, and the background service that it manages.
use crate::text;
use crate::updater;
use service_manager::ServiceLabel;
use vstd::prelude::*;

verus! {

/// The label of the background service.
pub const SERVICE_LABEL: &'static str = "postgrest-server";

/// The options of the command line.
pub struct Args {
    /// Install and start as a background service.
    pub daemon: bool,
    /// Stop and uninstall the background service.
    pub disable: bool,
    /// Install the latest release now and restart the service.
    pub update: bool,
    /// Run without the automatic updater.
    pub no_update: bool,
}

/// What the command line asks for.
pub enum CliAction {
    /// Install the latest release.
    Update,
    /// Install and start the service, with the updater or without it.
    Install { no_update: bool },
    /// Stop and uninstall the service.
    Uninstall,
    /// Run the server in this process.
    Serve,
}

/// Whether the automatic updater is to run.
pub fn updater_enabled(args: &Args) -> (r: bool)
    ensures
        r == !args.no_update,
{
    !args.no_update
}

/// Decides what the command line asks for. An update comes before anything
/// else, and the installation of the service before its removal.
pub fn handle_cli(args: &Args) -> (r: CliAction)
    ensures
        match r {
            CliAction::Update => args.update,
            CliAction::Install { no_update } => !args.update && args.daemon && no_update
                == args.no_update,
            CliAction::Uninstall => !args.update && !args.daemon && args.disable,
            CliAction::Serve => !args.update && !args.daemon && !args.disable,
        },
{
    if args.update {
        CliAction::Update
    } else if args.daemon {
        CliAction::Install { no_update: args.no_update }
    } else if args.disable {
        CliAction::Uninstall
    } else {
        CliAction::Serve
    }
}

// ---------------------------------------------------------------------------
// The service's label
// ---------------------------------------------------------------------------

/// The parts of a service's label.
pub struct LabelParts {
    pub qualifier: Option<String>,
    pub organization: Option<String>,
    pub application: String,
}

/// The parts of a service's label, as text.
pub struct LabelView {
    pub qualifier: Option<Seq<char>>,
    pub organization: Option<Seq<char>>,
    pub application: Seq<char>,
}

impl View for LabelParts {
    type V = LabelView;

    open spec fn view(&self) -> LabelView {
        LabelView {
            qualifier: match self.qualifier {
                Some(q) => Some(q@),
                None => None,
            },
            organization: match self.organization {
                Some(o) => Some(o@),
                None => None,
            },
            application: self.application@,
        }
    }
}

/// The parts of a label: the first two parts before dots are the qualifier and
/// the organization, the rest is the application; where there is one dot, there
/// is no qualifier, and where there is none, no organization either.
pub open spec fn are_label_parts(label: Seq<char>, p: LabelParts) -> bool {
    let tokens = text::split(label, '.');
    if tokens.len() == 1 {
        p.qualifier is None && p.organization is None && p.application@ == tokens[0]
    } else if tokens.len() == 2 {
        &&& p.qualifier is None
        &&& p.organization matches Some(o) && o@ == tokens[0]
        &&& p.application@ == tokens[1]
    } else {
        &&& p.qualifier matches Some(q) && q@ == tokens[0]
        &&& p.organization matches Some(o) && o@ == tokens[1]
        &&& p.application@ == text::joined(tokens.skip(2), seq!['.'])
    }
}

/// `ServiceLabel::from_str`: it never fails, and splits the label at its dots.
#[verifier::external_body]
fn parse_label(label: &str) -> (r: LabelParts)
    ensures
        are_label_parts(label@, r),
{
    let l: ServiceLabel = label.parse().unwrap();
    LabelParts {
        qualifier: l.qualifier,
        organization: l.organization,
        application: l.application,
    }
}

/// The label of the background service, in parts: it is all application.
pub open spec fn own_label() -> LabelView {
    LabelView { qualifier: None, organization: None, application: SERVICE_LABEL@ }
}

/// The label of the background service, in parts.
pub fn service_label() -> (r: LabelParts)
    ensures
        r@ == own_label(),
{
    proof {
        reveal_strlit("postgrest-server");
        assert(!SERVICE_LABEL@.contains('.'));
        text::split_keeps_whole(SERVICE_LABEL@, '.');
    }
    parse_label(SERVICE_LABEL)
}

/// One step in managing the service. `P` is the type of a program's path.
pub enum ServiceStep<P> {
    /// Register the service: which program it starts, with which arguments, and
    /// whether it starts by itself after a reboot.
    Install { label: LabelParts, program: P, args: Vec<String>, autostart: bool },
    /// Call the Windows service manager with arguments.
    Configure { args: Vec<String> },
    Start { label: LabelParts },
    /// Stop the service; it may have stopped already.
    StopIfRunning { label: LabelParts },
    Uninstall { label: LabelParts },
}

/// One step in managing the service, with its texts.
pub enum ServiceStepView<P> {
    Install { label: LabelView, program: P, args: Seq<Seq<char>>, autostart: bool },
    Configure { args: Seq<Seq<char>> },
    Start { label: LabelView },
    StopIfRunning { label: LabelView },
    Uninstall { label: LabelView },
}

impl<P> View for ServiceStep<P> {
    type V = ServiceStepView<P>;

    open spec fn view(&self) -> ServiceStepView<P> {
        match *self {
            ServiceStep::Install { label, program, args, autostart } => ServiceStepView::Install {
                label: label@,
                program,
                args: text::views(args@),
                autostart,
            },
            ServiceStep::Configure { args } => ServiceStepView::Configure {
                args: text::views(args@),
            },
            ServiceStep::Start { label } => ServiceStepView::Start { label: label@ },
            ServiceStep::StopIfRunning { label } => ServiceStepView::StopIfRunning {
                label: label@,
            },
            ServiceStep::Uninstall { label } => ServiceStepView::Uninstall { label: label@ },
        }
    }
}

/// The steps with their texts.
pub open spec fn step_views<P>(v: Seq<ServiceStep<P>>) -> Seq<ServiceStepView<P>> {
    v.map_values(|s: ServiceStep<P>| s@)
}

/// The arguments of the installed service: it keeps `--no-update`.
pub open spec fn service_args(no_update: bool) -> Seq<Seq<char>> {
    if no_update {
        seq!["--no-update"@]
    } else {
        Seq::empty()
    }
}

/// The arguments that make the Windows service manager restart the service
/// after a failure.
pub open spec fn restart_policy() -> Seq<Seq<char>> {
    seq![
        "failure"@,
        SERVICE_LABEL@,
        "reset="@,
        "86400"@,
        "actions="@,
        "restart/5000/restart/5000/restart/5000"@,
    ]
}

/// The steps that install the service and start it. It starts by itself after a
/// reboot. On Windows the service manager is told to restart it after a failure,
/// which the updater relies on.
pub open spec fn install_steps<P>(program: P, no_update: bool, windows: bool) -> Seq<
    ServiceStepView<P>,
> {
    let install = ServiceStepView::Install {
        label: own_label(),
        program,
        args: service_args(no_update),
        autostart: true,
    };
    let start = ServiceStepView::Start { label: own_label() };
    if windows {
        seq![install, ServiceStepView::Configure { args: restart_policy() }, start]
    } else {
        seq![install, start]
    }
}

/// The steps that stop the service and remove it.
pub open spec fn uninstall_steps<P>() -> Seq<ServiceStepView<P>> {
    seq![
        ServiceStepView::StopIfRunning { label: own_label() },
        ServiceStepView::Uninstall { label: own_label() },
    ]
}

/// The steps that stop the service and start it again.
pub open spec fn restart_steps<P>() -> Seq<ServiceStepView<P>> {
    seq![
        ServiceStepView::StopIfRunning { label: own_label() },
        ServiceStepView::Start { label: own_label() },
    ]
}

fn restart_policy_args() -> (r: Vec<String>)
    ensures
        text::views(r@) == restart_policy(),
{
    let mut args: Vec<String> = Vec::new();
    args.push("failure".to_owned());
    args.push(SERVICE_LABEL.to_owned());
    args.push("reset=".to_owned());
    args.push("86400".to_owned());
    args.push("actions=".to_owned());
    args.push("restart/5000/restart/5000/restart/5000".to_owned());
    assert(text::views(args@) =~= restart_policy());
    args
}

/// Plans the installation of the service, which starts `program`.
pub fn install_service<P>(program: P, no_update: bool, windows: bool) -> (r: Vec<ServiceStep<P>>)
    ensures
        step_views(r@) == install_steps(program, no_update, windows),
{
    let mut args: Vec<String> = Vec::new();
    if no_update {
        args.push("--no-update".to_owned());
    }
    assert(text::views(args@) =~= service_args(no_update));
    let mut steps: Vec<ServiceStep<P>> = Vec::new();
    steps.push(ServiceStep::Install { label: service_label(), program, args, autostart: true });
    if windows {
        steps.push(ServiceStep::Configure { args: restart_policy_args() });
    }
    steps.push(ServiceStep::Start { label: service_label() });
    assert(step_views(steps@) =~= install_steps(program, no_update, windows));
    steps
}

/// Plans the removal of the service.
pub fn uninstall_service<P>() -> (r: Vec<ServiceStep<P>>)
    ensures
        step_views(r@) == uninstall_steps::<P>(),
{
    let mut steps: Vec<ServiceStep<P>> = Vec::new();
    steps.push(ServiceStep::StopIfRunning { label: service_label() });
    steps.push(ServiceStep::Uninstall { label: service_label() });
    assert(step_views(steps@) =~= uninstall_steps::<P>());
    steps
}

/// Plans a restart of the service.
pub fn restart_service<P>() -> (r: Vec<ServiceStep<P>>)
    ensures
        step_views(r@) == restart_steps::<P>(),
{
    let mut steps: Vec<ServiceStep<P>> = Vec::new();
    steps.push(ServiceStep::StopIfRunning { label: service_label() });
    steps.push(ServiceStep::Start { label: service_label() });
    assert(step_views(steps@) =~= restart_steps::<P>());
    steps
}

/// How far a plan has come.
pub enum Progress<E> {
    /// The step at this index is next.
    Next(usize),
    /// Nothing is left to do.
    Finished(Result<(), E>),
}

/// How far a plan has come once step `i` was done with a result. The first
/// failure ends it, but for that of a step that may find its work done.
pub open spec fn progress_after<P, E>(
    steps: Seq<ServiceStepView<P>>,
    i: int,
    result: Result<(), E>,
) -> Progress<E> {
    if result is Err && !(steps[i] is StopIfRunning) {
        Progress::Finished(result)
    } else if i + 1 < steps.len() {
        Progress::Next((i + 1) as usize)
    } else {
        Progress::Finished(Ok(()))
    }
}

/// Decides how a plan goes on once step `i` was done with a result.
pub fn after_step<P, E>(steps: &Vec<ServiceStep<P>>, i: usize, result: Result<(), E>) -> (r: Progress<
    E,
>)
    requires
        i < steps@.len(),
    ensures
        r == progress_after(step_views(steps@), i as int, result),
{
    let forgiven = match &steps[i] {
        ServiceStep::StopIfRunning { .. } => true,
        _ => false,
    };
    assert(step_views(steps@)[i as int] == steps@[i as int]@);
    match result {
        Err(e) if !forgiven => Progress::Finished(Err(e)),
        _ => if steps.len() - i > 1 {
            Progress::Next(i + 1)
        } else {
            Progress::Finished(Ok(()))
        },
    }
}

/// A service that could not be installed is not started: the failure is the
/// result of the plan. The start comes last, and its result is the plan's.
pub proof fn only_installed_services_are_started<P, E>(
    program: P,
    no_update: bool,
    windows: bool,
    i: int,
    result: Result<(), E>,
)
    requires
        0 <= i < install_steps(program, no_update, windows).len(),
    ensures
        ({
            let steps = install_steps(program, no_update, windows);
            &&& result is Err ==> progress_after(steps, i, result) == Progress::<E>::Finished(result)
            &&& (steps[i] is Start <==> i == steps.len() - 1)
            &&& steps[i] is Start ==> progress_after(steps, i, result) == Progress::<E>::Finished(
                result,
            )
        }),
{
    let steps = install_steps(program, no_update, windows);
    assert(steps[0] is Install);
    assert(windows ==> steps[1] is Configure && steps[2] is Start);
    assert(!windows ==> steps[1] is Start);
    if result is Ok {
        assert(result->Ok_0 == ());
    }
}

/// A service that is not running can be removed and restarted: that it could
/// not be stopped ends neither plan.
pub proof fn stopped_services_can_be_managed<P, E>(result: Result<(), E>)
    ensures
        progress_after(uninstall_steps::<P>(), 0, result) == Progress::<E>::Next(1),
        progress_after(restart_steps::<P>(), 0, result) == Progress::<E>::Next(1),
{
}

/// The message for a system without a service manager that is known.
pub fn manager_error(cause: &str) -> (r: String)
    ensures
        r@ == "Failed to detect a supported service manager: "@ + cause@,
{
    "Failed to detect a supported service manager: ".to_owned().concat(cause)
}

// ---------------------------------------------------------------------------
// The executable that the installed service runs
// ---------------------------------------------------------------------------

/// Where systemd keeps the description of the service.
pub fn unit_path() -> (r: String)
    ensures
        r@ == "/etc/systemd/system/"@ + SERVICE_LABEL@ + ".service"@,
{
    "/etc/systemd/system/".to_owned().concat(SERVICE_LABEL).concat(".service")
}

/// What follows `prefix` in the first line that starts with it.
pub open spec fn first_after(lines: Seq<Seq<char>>, prefix: Seq<char>) -> Option<Seq<char>>
    decreases lines.len(),
{
    if lines.len() == 0 {
        None
    } else {
        match text::after_prefix(lines[0], prefix) {
            Some(t) => Some(t),
            None => first_after(lines.drop_first(), prefix),
        }
    }
}

/// The executable in a systemd unit: the first word of its first `ExecStart`.
pub open spec fn unit_program(unit: Seq<char>) -> Option<Seq<char>> {
    match first_after(text::lines(unit), "ExecStart="@) {
        Some(command) => text::first_word(command),
        None => None,
    }
}

/// Finds the executable in a systemd unit.
pub fn program_of_unit(unit: &str) -> (r: Option<String>)
    ensures
        match r {
            Some(p) => unit_program(unit@) == Some(p@),
            None => unit_program(unit@) is None,
        },
{
    let lines = text::split_lines(unit);
    let ghost shown = text::views(lines@);
    let mut i: usize = 0;
    assert(shown.skip(0) =~= shown);
    while i < lines.len()
        invariant
            i <= lines@.len(),
            shown == text::views(lines@),
            shown == text::lines(unit@),
            first_after(shown, "ExecStart="@) == first_after(shown.skip(i as int), "ExecStart="@),
        decreases lines@.len() - i,
    {
        assert(shown.skip(i as int)[0] == lines@[i as int]@);
        assert(shown.skip(i as int).drop_first() =~= shown.skip(i + 1));
        if let Some(command) = text::strip_prefix(&lines[i], "ExecStart=") {
            return text::leading_word(&command);
        }
        i += 1;
    }
    None
}

/// The first line that starts with `word`, but for white space before it.
pub open spec fn first_line_with(lines: Seq<Seq<char>>, word: Seq<char>) -> Option<Seq<char>>
    decreases lines.len(),
{
    if lines.len() == 0 {
        None
    } else if text::after_prefix(text::trim_start(lines[0]), word) is Some {
        Some(lines[0])
    } else {
        first_line_with(lines.drop_first(), word)
    }
}

/// The executable in a command line: in quotes, or up to the first option.
pub open spec fn command_program(command: Seq<char>) -> Seq<char> {
    text::trimmed(
        match text::after_prefix(command, "\""@) {
            Some(quoted) => text::before(quoted, "\""@),
            None => text::before(command, " --"@),
        },
    )
}

/// The executable in what the Windows service manager tells of a service.
pub open spec fn query_program(answer: Seq<char>) -> Option<Seq<char>> {
    match first_line_with(text::lines(answer), "BINARY_PATH_NAME"@) {
        None => None,
        Some(line) => match text::after_char(line, ':') {
            None => None,
            Some(command) => Some(command_program(text::trimmed(command))),
        },
    }
}

/// Finds the executable in what the Windows service manager tells of a service.
pub fn program_of_query(answer: &str) -> (r: Option<String>)
    ensures
        match r {
            Some(p) => query_program(answer@) == Some(p@),
            None => query_program(answer@) is None,
        },
{
    let lines = text::split_lines(answer);
    let ghost shown = text::views(lines@);
    let ghost word = "BINARY_PATH_NAME"@;
    let mut i: usize = 0;
    assert(shown.skip(0) =~= shown);
    while i < lines.len()
        invariant
            i <= lines@.len(),
            shown == text::views(lines@),
            shown == text::lines(answer@),
            word == "BINARY_PATH_NAME"@,
            first_line_with(shown, word) == first_line_with(shown.skip(i as int), word),
        decreases lines@.len() - i,
    {
        assert(shown.skip(i as int)[0] == lines@[i as int]@);
        assert(shown.skip(i as int).drop_first() =~= shown.skip(i + 1));
        let start = text::trim_front(&lines[i]);
        if text::strip_prefix(&start, "BINARY_PATH_NAME").is_some() {
            return match text::take_after(&lines[i], ':') {
                None => None,
                Some(rest) => {
                    let command = text::trim(&rest);
                    let program = match text::strip_prefix(&command, "\"") {
                        Some(quoted) => text::take_before(&quoted, "\""),
                        None => text::take_before(&command, " --"),
                    };
                    Some(text::trim(&program))
                },
            };
        }
        i += 1;
    }
    None
}

/// A byte with an ASCII capital turned into its small letter.
pub open spec fn lower_byte(b: u8) -> u8 {
    if 65 <= b <= 90 {
        (b + 32) as u8
    } else {
        b
    }
}

/// Whether two resolved paths are the same, where their case counts or not.
pub open spec fn same_path(a: Seq<u8>, b: Seq<u8>, ignore_case: bool) -> bool {
    if ignore_case {
        a.map_values(|x: u8| lower_byte(x)) == b.map_values(|x: u8| lower_byte(x))
    } else {
        a == b
    }
}

fn lower_of(b: u8) -> (r: u8)
    ensures
        r == lower_byte(b),
{
    if 65 <= b && b <= 90 {
        b + 32
    } else {
        b
    }
}

/// Tells whether two paths are the same file. A path that could not be resolved
/// is the same as no other.
pub fn same_file(a: &Option<Vec<u8>>, b: &Option<Vec<u8>>, ignore_case: bool) -> (r: bool)
    ensures
        r == (match (*a, *b) {
            (Some(p), Some(q)) => same_path(p@, q@, ignore_case),
            _ => false,
        }),
{
    match (a, b) {
        (Some(p), Some(q)) => {
            let ghost pl = p@.map_values(|x: u8| lower_byte(x));
            let ghost ql = q@.map_values(|x: u8| lower_byte(x));
            if p.len() != q.len() {
                assert(pl.len() != ql.len());
                return false;
            }
            let mut i: usize = 0;
            while i < p.len()
                invariant
                    i <= p@.len() == q@.len(),
                    a == Some(*p),
                    b == Some(*q),
                    pl == p@.map_values(|x: u8| lower_byte(x)),
                    ql == q@.map_values(|x: u8| lower_byte(x)),
                    forall|k: int|
                        0 <= k < i ==> if ignore_case {
                            lower_byte(p@[k]) == lower_byte(q@[k])
                        } else {
                            p@[k] == q@[k]
                        },
                decreases p@.len() - i,
            {
                if ignore_case {
                    if lower_of(p[i]) != lower_of(q[i]) {
                        assert(pl[i as int] != ql[i as int]);
                        return false;
                    }
                } else if p[i] != q[i] {
                    return false;
                }
                i += 1;
            }
            assert(ignore_case ==> pl =~= ql);
            assert(!ignore_case ==> p@ =~= q@);
            true
        },
        _ => false,
    }
}

// ---------------------------------------------------------------------------
// An update on demand
// ---------------------------------------------------------------------------

/// Refuses an update from an executable that is not the one that the installed
/// service runs.
pub fn check_executable(installed: &Option<String>, same: bool) -> (r: Result<(), String>)
    ensures
        match r {
            Ok(_) => installed is None || same,
            Err(m) => installed is Some && !same && m@ == "the service runs "@ + installed->0@
                + "; run --update with that executable"@,
        },
{
    match installed {
        Some(program) if !same => Err(
            "the service runs ".to_owned().concat(program).concat(
                "; run --update with that executable",
            ),
        ),
        _ => Ok(()),
    }
}

/// What is left to do after an update on demand, and what to print.
pub struct UpdateReport {
    pub line: String,
    pub restart: bool,
}

/// Reports on an update. The service, if it is installed, is restarted once a
/// new release is in place.
pub fn report_update(outcome: updater::Outcome, installed: bool) -> (r: UpdateReport)
    ensures
        match outcome {
            updater::Outcome::UpToDate(latest) => {
                &&& !r.restart
                &&& r.line@ == "Up to date: running "@ + updater::tag((0, 1, 0))
                    + ", latest release "@ + updater::tag(latest) + "."@
            },
            updater::Outcome::Installed(latest) => {
                &&& r.restart == installed
                &&& r.line@ == "Installed "@ + updater::tag(latest) + " over "@ + updater::tag(
                    (0, 1, 0),
                ) + "."@
            },
        },
{
    let current = updater::format_version(updater::current());
    match outcome {
        updater::Outcome::UpToDate(latest) => {
            let line = "Up to date: running ".to_owned().concat(&current).concat(
                ", latest release ",
            ).concat(&updater::format_version(latest)).concat(".");
            UpdateReport { line, restart: false }
        },
        updater::Outcome::Installed(latest) => {
            let line = "Installed ".to_owned().concat(&updater::format_version(latest)).concat(
                " over ",
            ).concat(&current).concat(".");
            UpdateReport { line, restart: installed }
        },
    }
}

// ---------------------------------------------------------------------------
// What holds of every call
// ---------------------------------------------------------------------------

/// An update comes first, then the installation, then the removal; without any
/// of the three options the server runs. The installation keeps `--no-update`.
pub proof fn options_have_an_order(args: Args, r: CliAction)
    requires
        call_ensures(handle_cli, (&args,), r),
    ensures
        args.update <==> r is Update,
        !args.update && args.daemon <==> r is Install,
        r matches CliAction::Install { no_update } ==> no_update == args.no_update,
        !args.update && !args.daemon && args.disable <==> r is Uninstall,
        !args.update && !args.daemon && !args.disable <==> r is Serve,
{
}

/// The updater runs unless it is switched off, whatever the other options are.
pub proof fn updater_runs_unless_switched_off(args: Args, r: bool)
    requires
        call_ensures(updater_enabled, (&args,), r),
    ensures
        args.no_update ==> !r,
        !args.no_update ==> r,
{
}

/// Whether a label is that of the service: `postgrest-server`, and nothing else.
pub open spec fn is_own(label: LabelParts) -> bool {
    &&& label.qualifier is None
    &&& label.organization is None
    &&& label.application@ == "postgrest-server"@
}

/// The label is all application.
pub proof fn label_is_all_application(r: LabelParts)
    requires
        call_ensures(service_label, (), r),
    ensures
        is_own(r),
{
}

/// Whatever the program, the option and the platform are: the first step
/// registers that program under the service's label, to start by itself, with
/// `--no-update` as its one argument if the option was given and with none if
/// not. The last step starts the service. Only on Windows there is one between
/// them, which has the service manager restart the service after a failure.
pub proof fn installation_registers_and_starts<P>(
    program: P,
    no_update: bool,
    windows: bool,
    r: Vec<ServiceStep<P>>,
)
    requires
        call_ensures(install_service::<P>, (program, no_update, windows), r),
    ensures
        r@.len() == (if windows {
            3int
        } else {
            2
        }),
        r@[0] matches ServiceStep::Install { label, program: p, args, autostart } && is_own(label)
            && p == program && autostart && args@.len() == (if no_update {
            1int
        } else {
            0
        }) && (no_update ==> args@[0]@ == "--no-update"@),
        r@.last() matches ServiceStep::Start { label } && is_own(label),
        windows ==> (r@[1] matches ServiceStep::Configure { args } && args@.len() == 6 && args@[0]@
            == "failure"@ && args@[1]@ == "postgrest-server"@ && args@[2]@ == "reset="@ && args@[3]@
            == "86400"@ && args@[4]@ == "actions="@ && args@[5]@
            == "restart/5000/restart/5000/restart/5000"@),
{
    let shown = step_views(r@);
    assert(shown.len() == r@.len());
    assert(shown[0] == r@[0]@);
    assert(shown[1] == r@[1]@);
    assert(windows ==> shown[2] == r@[2]@);
    if let ServiceStep::Install { label, program: p, args, autostart } = r@[0] {
        assert(text::views(args@).len() == args@.len());
        assert(no_update ==> text::views(args@)[0] == args@[0]@);
    }
    if let ServiceStep::Configure { args } = r@[1] {
        assert(text::views(args@).len() == args@.len());
        assert(text::views(args@)[0] == args@[0]@ && text::views(args@)[1] == args@[1]@);
        assert(text::views(args@)[2] == args@[2]@ && text::views(args@)[3] == args@[3]@);
        assert(text::views(args@)[4] == args@[4]@ && text::views(args@)[5] == args@[5]@);
    }
}

/// Removal and restart both begin with stopping the service; then it is removed
/// or started, under its own label.
pub proof fn services_are_stopped_first<P>(r: Vec<ServiceStep<P>>, s: Vec<ServiceStep<P>>)
    requires
        call_ensures(uninstall_service::<P>, (), r),
        call_ensures(restart_service::<P>, (), s),
    ensures
        r@.len() == 2,
        r@[0] matches ServiceStep::StopIfRunning { label } && is_own(label),
        r@[1] matches ServiceStep::Uninstall { label } && is_own(label),
        s@.len() == 2,
        s@[0] matches ServiceStep::StopIfRunning { label } && is_own(label),
        s@[1] matches ServiceStep::Start { label } && is_own(label),
{
    assert(step_views(r@).len() == r@.len() && step_views(s@).len() == s@.len());
    assert(step_views(r@)[0] == r@[0]@ && step_views(r@)[1] == r@[1]@);
    assert(step_views(s@)[0] == s@[0]@ && step_views(s@)[1] == s@[1]@);
}

/// A failure ends a plan and is its result, unless it was that of stopping; else
/// the next step comes, and behind the last one the plan has succeeded.
pub proof fn plans_go_step_by_step<P, E>(
    steps: Vec<ServiceStep<P>>,
    i: usize,
    result: Result<(), E>,
    r: Progress<E>,
)
    requires
        call_ensures(after_step::<P, E>, (&steps, i, result), r),
        i < steps@.len(),
    ensures
        result is Err && !(steps@[i as int] is StopIfRunning) ==> r == Progress::Finished(result),
        (result is Ok || steps@[i as int] is StopIfRunning) && i + 1 < steps@.len() ==> (r matches
            Progress::Next(n) && n == i + 1),
        (result is Ok || steps@[i as int] is StopIfRunning) && i + 1 == steps@.len() ==> r
            == Progress::Finished(Ok::<(), E>(())),
{
    assert(step_views(steps@)[i as int] == steps@[i as int]@);
    assert(steps.len() == steps@.len());
}

/// The messages for a system without a service manager and the place of the
/// unit are fixed.
pub proof fn texts_are_fixed(cause: &str, m: String, p: String)
    requires
        call_ensures(manager_error, (cause,), m),
        call_ensures(unit_path, (), p),
    ensures
        m@ == "Failed to detect a supported service manager: "@ + cause@,
        p@ == "/etc/systemd/system/postgrest-server.service"@,
{
    reveal_strlit("/etc/systemd/system/");
    reveal_strlit("postgrest-server");
    reveal_strlit(".service");
    reveal_strlit("/etc/systemd/system/postgrest-server.service");
    assert(p@ =~= "/etc/systemd/system/postgrest-server.service"@);
}

proof fn lemma_first_after(lines: Seq<Seq<char>>, prefix: Seq<char>)
    ensures
        match first_after(lines, prefix) {
            Some(t) => exists|i: int|
                0 <= i < lines.len() && #[trigger] lines[i] == prefix + t && forall|j: int|
                    0 <= j < i ==> !prefix.is_prefix_of(#[trigger] lines[j]),
            None => forall|j: int| 0 <= j < lines.len() ==> !prefix.is_prefix_of(#[trigger] lines[j]),
        },
    decreases lines.len(),
{
    if lines.len() > 0 {
        if let Some(t) = text::after_prefix(lines[0], prefix) {
            assert(lines[0] =~= prefix + t);
        } else {
            if prefix.is_prefix_of(lines[0]) {
                assert(lines[0].take(prefix.len() as int) =~= prefix);
            }
            let d = lines.drop_first();
            lemma_first_after(d, prefix);
            match first_after(d, prefix) {
                Some(t) => {
                    let i = choose|i: int|
                        0 <= i < d.len() && #[trigger] d[i] == prefix + t && forall|j: int|
                            0 <= j < i ==> !prefix.is_prefix_of(#[trigger] d[j]);
                    assert(lines[i + 1] == prefix + t);
                    assert forall|j: int| 0 <= j < i + 1 implies !prefix.is_prefix_of(
                        #[trigger] lines[j],
                    ) by {
                        if j > 0 {
                            assert(d[j - 1] == lines[j]);
                        }
                    }
                },
                None => {
                    assert forall|j: int| 0 <= j < lines.len() implies !prefix.is_prefix_of(
                        #[trigger] lines[j],
                    ) by {
                        if j > 0 {
                            assert(d[j - 1] == lines[j]);
                        }
                    }
                },
            }
        }
    }
}

/// The executable of a unit is the first word behind `ExecStart=` in the first
/// line that begins so; there is none where no line does or where only white
/// space follows.
pub proof fn units_name_their_executable(unit: &str, command: Seq<char>, i: int, r: Option<String>)
    requires
        call_ensures(program_of_unit, (unit,), r),
    ensures
        0 <= i < text::lines(unit@).len() && text::lines(unit@)[i] == "ExecStart="@ + command && (
        forall|j: int|
            0 <= j < i ==> !"ExecStart="@.is_prefix_of(#[trigger] text::lines(unit@)[j])) ==> match r {
            Some(w) => text::is_first_word(command, w@),
            None => forall|k: int| 0 <= k < command.len() ==> text::is_white(#[trigger] command[k]),
        },
        (forall|j: int|
            0 <= j < text::lines(unit@).len() ==> !"ExecStart="@.is_prefix_of(
                #[trigger] text::lines(unit@)[j],
            )) ==> r is None,
{
    let lines = text::lines(unit@);
    let p = "ExecStart="@;
    lemma_first_after(lines, p);
    if let Some(t) = first_after(lines, p) {
        let k = choose|k: int|
            0 <= k < lines.len() && #[trigger] lines[k] == p + t && forall|j: int|
                0 <= j < k ==> !p.is_prefix_of(#[trigger] lines[j]);
        assert(p =~= (p + t).subrange(0, p.len() as int));
        assert(p.is_prefix_of(lines[k]));
        if 0 <= i < lines.len() && lines[i] == p + command && (forall|j: int|
            0 <= j < i ==> !p.is_prefix_of(#[trigger] lines[j])) {
            assert(p =~= (p + command).subrange(0, p.len() as int));
            assert(p.is_prefix_of(lines[i]));
            assert(i == k);
            assert((p + t).skip(p.len() as int) =~= t);
            assert((p + command).skip(p.len() as int) =~= command);
            text::first_words_stand_first(command);
        }
    } else if 0 <= i < lines.len() && lines[i] == p + command {
        assert(p =~= (p + command).subrange(0, p.len() as int));
        assert(p.is_prefix_of(lines[i]));
    }
}

proof fn lemma_first_line_with(lines: Seq<Seq<char>>, word: Seq<char>)
    ensures
        match first_line_with(lines, word) {
            Some(line) => exists|i: int|
                0 <= i < lines.len() && #[trigger] lines[i] == line && word.is_prefix_of(
                    text::trim_start(line),
                ) && forall|j: int|
                    0 <= j < i ==> !word.is_prefix_of(text::trim_start(#[trigger] lines[j])),
            None => forall|j: int|
                0 <= j < lines.len() ==> !word.is_prefix_of(text::trim_start(#[trigger] lines[j])),
        },
    decreases lines.len(),
{
    if lines.len() > 0 {
        let t = text::trim_start(lines[0]);
        if text::after_prefix(t, word) is Some {
            assert(word =~= t.subrange(0, word.len() as int));
            assert(lines[0] == first_line_with(lines, word)->0);
        } else {
            if word.is_prefix_of(t) {
                assert(t.take(word.len() as int) =~= word);
            }
            let d = lines.drop_first();
            lemma_first_line_with(d, word);
            match first_line_with(d, word) {
                Some(line) => {
                    let i = choose|i: int|
                        0 <= i < d.len() && #[trigger] d[i] == line && word.is_prefix_of(
                            text::trim_start(line),
                        ) && forall|j: int|
                            0 <= j < i ==> !word.is_prefix_of(text::trim_start(#[trigger] d[j]));
                    assert(lines[i + 1] == line);
                    assert forall|j: int| 0 <= j < i + 1 implies !word.is_prefix_of(
                        text::trim_start(#[trigger] lines[j]),
                    ) by {
                        if j > 0 {
                            assert(d[j - 1] == lines[j]);
                        }
                    }
                },
                None => {
                    assert forall|j: int| 0 <= j < lines.len() implies !word.is_prefix_of(
                        text::trim_start(#[trigger] lines[j]),
                    ) by {
                        if j > 0 {
                            assert(d[j - 1] == lines[j]);
                        }
                    }
                },
            }
        }
    }
}

/// The executable that the Windows service manager tells of stands in the first
/// line that begins with `BINARY_PATH_NAME`, behind the first colon. In quotes
/// it goes up to the closing quote, and else up to the first option; white space
/// around it does not count.
pub proof fn answers_name_their_executable(answer: &str, i: int, r: Option<String>)
    requires
        call_ensures(program_of_query, (answer,), r),
        0 <= i < text::lines(answer@).len(),
        "BINARY_PATH_NAME"@.is_prefix_of(text::trim_start(text::lines(answer@)[i])),
        forall|j: int|
            0 <= j < i ==> !"BINARY_PATH_NAME"@.is_prefix_of(
                text::trim_start(#[trigger] text::lines(answer@)[j]),
            ),
    ensures
        ({
            let line = text::lines(answer@)[i];
            match text::after_char(line, ':') {
                None => r is None,
                Some(rest) => {
                    let command = text::trimmed(rest);
                    r matches Some(p) && (if command.len() > 0 && command[0] == '"' {
                        text::is_core(text::before(command.skip(1), "\""@), p@)
                    } else {
                        text::is_core(text::before(command, " --"@), p@)
                    })
                },
            }
        }),
{
    let lines = text::lines(answer@);
    let word = "BINARY_PATH_NAME"@;
    lemma_first_line_with(lines, word);
    let line = first_line_with(lines, word)->0;
    let k = choose|k: int|
        0 <= k < lines.len() && #[trigger] lines[k] == line && word.is_prefix_of(
            text::trim_start(line),
        ) && forall|j: int|
            0 <= j < k ==> !word.is_prefix_of(text::trim_start(#[trigger] lines[j]));
    assert(lines[i] == lines[i]);
    assert(i == k);
    if let Some(rest) = text::after_char(line, ':') {
        let command = text::trimmed(rest);
        reveal_strlit("\"");
        assert("\""@ =~= seq!['"']);
        if command.len() > 0 && command[0] == '"' {
            assert(command.take(1) =~= seq!['"']);
        } else if command.len() > 0 {
            assert(command.take(1)[0] == command[0]);
        }
        text::trimmed_is_core(text::before(command.skip(1), "\""@));
        text::trimmed_is_core(text::before(command, " --"@));
    }
}

/// Without a line that begins with `BINARY_PATH_NAME` there is no executable.
pub proof fn other_answers_name_none(answer: &str, r: Option<String>)
    requires
        call_ensures(program_of_query, (answer,), r),
        forall|j: int|
            0 <= j < text::lines(answer@).len() ==> !"BINARY_PATH_NAME"@.is_prefix_of(
                text::trim_start(#[trigger] text::lines(answer@)[j]),
            ),
    ensures
        r is None,
{
    lemma_first_line_with(text::lines(answer@), "BINARY_PATH_NAME"@);
}

/// Paths are the same byte for byte, or but for the case of ASCII letters where
/// that is asked for; a path that was not found is the same as none.
pub proof fn paths_are_compared_byte_by_byte(
    a: Option<Vec<u8>>,
    b: Option<Vec<u8>>,
    ignore_case: bool,
    r: bool,
)
    requires
        call_ensures(same_file, (&a, &b, ignore_case), r),
    ensures
        a is None || b is None ==> !r,
        a is Some && b is Some ==> (r <==> a->0@.len() == b->0@.len() && forall|i: int|
            0 <= i < a->0@.len() ==> {
                let (x, y) = (#[trigger] a->0@[i] as int, b->0@[i] as int);
                x == y || (ignore_case && 65 <= x <= 90 && y == x + 32) || (ignore_case && 65 <= y
                    <= 90 && x == y + 32)
            }),
{
    if a is Some && b is Some {
        let (p, q) = (a->0@, b->0@);
        let (pl, ql) = (
            p.map_values(|x: u8| lower_byte(x)),
            q.map_values(|x: u8| lower_byte(x)),
        );
        if r {
            assert(ignore_case ==> pl.len() == ql.len());
            assert forall|i: int| 0 <= i < p.len() implies {
                let (x, y) = (#[trigger] p[i] as int, q[i] as int);
                x == y || (ignore_case && 65 <= x <= 90 && y == x + 32) || (ignore_case && 65 <= y
                    <= 90 && x == y + 32)
            } by {
                if ignore_case {
                    assert(pl[i] == ql[i]);
                    assert(pl[i] == lower_byte(p[i]) && ql[i] == lower_byte(q[i]));
                }
            }
        } else if p.len() == q.len() && forall|i: int|
            0 <= i < p.len() ==> {
                let (x, y) = (#[trigger] p[i] as int, q[i] as int);
                x == y || (ignore_case && 65 <= x <= 90 && y == x + 32) || (ignore_case && 65 <= y
                    <= 90 && x == y + 32)
            } {
            assert forall|i: int| 0 <= i < p.len() implies pl[i] == ql[i] && (!ignore_case ==> p[i]
                == q[i]) by {
                let (x, y) = (p[i] as int, q[i] as int);
                assert(x == y || (ignore_case && 65 <= x <= 90 && y == x + 32) || (ignore_case && 65
                    <= y <= 90 && x == y + 32));
            }
            assert(pl =~= ql);
            assert(!ignore_case ==> p =~= q);
        }
    }
}

/// An update is refused exactly where a service is installed that runs another
/// executable, which the message names.
pub proof fn updates_need_the_right_executable(
    installed: Option<String>,
    same: bool,
    r: Result<(), String>,
)
    requires
        call_ensures(check_executable, (&installed, same), r),
    ensures
        r is Err <==> installed is Some && !same,
        r matches Err(m) ==> m@ == "the service runs "@ + installed->0@
            + "; run --update with that executable"@,
{
}

/// A report names the version that runs and the latest one. The service is
/// restarted exactly where it is installed and a new version is in place.
pub proof fn updates_are_reported(
    outcome: updater::Outcome,
    installed: bool,
    own: updater::Version,
    r: UpdateReport,
)
    requires
        call_ensures(report_update, (outcome, installed), r),
        call_ensures(updater::current, (), own),
    ensures
        r.restart <==> installed && outcome is Installed,
        outcome matches updater::Outcome::UpToDate(v) ==> r.line@ == "Up to date: running "@
            + updater::tag(own) + ", latest release "@ + updater::tag(v) + "."@,
        outcome matches updater::Outcome::Installed(v) ==> r.line@ == "Installed "@ + updater::tag(v)
            + " over "@ + updater::tag(own) + "."@,
{
}

} // verus!
