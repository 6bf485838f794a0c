//! Command reports: a command prefix and its arguments, zero-padded to the
//! firmware's report size.

use vstd::prelude::*;

use crate::firmware::{brightness_command_spec, FirmwareKind};
use crate::image::zeros;

verus! {

/// The arguments that follow a command prefix.
#[derive(Debug)]
pub enum CommandArg {
    Single(u8),
    Vec(Vec<u8>),
}

/// Errors of device operations.
#[derive(Debug, PartialEq, Eq)]
pub enum Error {
    /// The transport failed; the text is its message.
    FirmwareError(String),
    /// No attached device matches.
    DeviceNotFound,
    /// The device's lock could not be taken.
    MutexLockError,
    /// A command and its arguments do not fit in one report.
    CommandSizeError,
}

/// The bytes of a command's arguments.
pub open spec fn arg_bytes(args: Option<CommandArg>) -> Seq<u8> {
    match args {
        None => Seq::empty(),
        Some(CommandArg::Single(v)) => seq![v],
        Some(CommandArg::Vec(v)) => v@,
    }
}

/// The report that carries `command` with arguments `args`: the prefix, the
/// arguments, then zeros up to `report_size` bytes.
pub open spec fn command_report(report_size: nat, command: Seq<u8>, args: Seq<u8>) -> Seq<u8> {
    command + args + zeros((report_size - command.len() - args.len()) as nat)
}

/// Builds the report for `command` with `args`. Fails with
/// `CommandSizeError` exactly when the prefix and arguments together are
/// longer than `report_size`; nothing is then to be sent.
pub fn frame_command(report_size: usize, command: &Vec<u8>, args: Option<CommandArg>) -> (r: Result<
    Vec<u8>,
    Error,
>)
    ensures
        command@.len() + arg_bytes(args).len() <= report_size <==> r.is_ok(),
        r matches Ok(v) ==> v@ == command_report(report_size as nat, command@, arg_bytes(args)),
        r matches Err(e) ==> e == Error::CommandSizeError,
{
    let ghost arg_seq = arg_bytes(args);
    let argv: Vec<u8> = match args {
        None => Vec::new(),
        Some(CommandArg::Single(v)) => {
            let mut a: Vec<u8> = Vec::new();
            a.push(v);
            a
        },
        Some(CommandArg::Vec(v)) => v,
    };
    assert(argv@ =~= arg_seq);
    if command.len() > report_size || argv.len() > report_size - command.len() {
        return Err(Error::CommandSizeError);
    }
    let mut report: Vec<u8> = Vec::new();
    let mut i: usize = 0;
    while i < command.len()
        invariant
            i <= command@.len(),
            report@ == command@.subrange(0, i as int),
        decreases command@.len() - i,
    {
        report.push(command[i]);
        i = i + 1;
        assert(report@ =~= command@.subrange(0, i as int));
    }
    assert(command@.subrange(0, command@.len() as int) =~= command@);
    let mut k: usize = 0;
    while k < argv.len()
        invariant
            k <= argv@.len(),
            report@ == command@ + argv@.subrange(0, k as int),
        decreases argv@.len() - k,
    {
        report.push(argv[k]);
        k = k + 1;
        assert(report@ =~= command@ + argv@.subrange(0, k as int));
    }
    assert(argv@.subrange(0, argv@.len() as int) =~= argv@);
    let ghost filled = report@;
    while report.len() < report_size
        invariant
            filled.len() <= report@.len() <= report_size,
            report@ == filled + zeros((report@.len() - filled.len()) as nat),
        decreases report_size - report@.len(),
    {
        report.push(0);
        assert(report@ =~= filled + zeros((report@.len() - filled.len()) as nat));
    }
    Ok(report)
}

/// A brightness level saturated to `0..=100`.
pub open spec fn clamp_brightness(level: u8) -> u8 {
    if level > 100 {
        100
    } else {
        level
    }
}

/// The report that sets the brightness of a device with firmware `kind` to
/// `level`, saturated to `0..=100`.
pub open spec fn brightness_report_spec(kind: FirmwareKind, level: u8) -> Seq<u8> {
    command_report(kind.report_size_spec(), brightness_command_spec(), seq![clamp_brightness(level)])
}

/// Builds the report that sets the display brightness to `level`; levels
/// above 100 are taken as 100.
pub fn brightness_report(kind: FirmwareKind, level: u8) -> (r: Vec<u8>)
    ensures
        r@ == brightness_report_spec(kind, level),
{
    let level = if level > 100 {
        100
    } else {
        level
    };
    let command = kind.brightness_command();
    let size = kind.feature_report_size();
    frame_command(size, &command, Some(CommandArg::Single(level))).unwrap()
}

/// Setting a brightness above 100 sends the same report as setting 100.
pub proof fn lemma_brightness_saturates(kind: FirmwareKind, level: u8)
    requires
        level >= 100,
    ensures
        brightness_report_spec(kind, level) == brightness_report_spec(kind, 100),
{
}

} // verus!
