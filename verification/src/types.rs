//! Wire-level enumerations shared by the manager and its clients, and their
//! text and integer encodings.

use vstd::prelude::*;
use vstd::string::*;
use crate::strutil::spec_i32_dec;
use crate::strutil::spec_u32_dec;
use crate::strutil::i32_to_string;
use crate::strutil::u32_to_string;

verus! {

/// Program kinds the manager can load and attach.
#[derive(Clone, Copy, PartialEq, Eq, Structural, Debug, Hash)]
pub enum ProgramType {
    Xdp,
    Tc,
    Tracepoint,
    Kprobe,
    Uprobe,
    Unsupported,
}

/// Traffic-control attachment direction of a TC filter program.
#[derive(Clone, Copy, PartialEq, Eq, Structural, Debug, Hash)]
pub enum Direction {
    Ingress,
    Egress,
}

/// Return codes of a filter extension on which the dispatcher proceeds to
/// the next extension instead of returning to the kernel.
#[derive(Clone, Copy, PartialEq, Eq, Structural, Debug, Hash)]
pub enum ProceedOn {
    Aborted,
    Drop,
    Pass,
    Tx,
    Redirect,
    DispatcherReturn,
}

/// Probe flavours a kprobe- or uprobe-style program can request.
#[derive(Clone, Copy, PartialEq, Eq, Structural, Debug, Hash)]
pub enum ProbeType {
    Kprobe,
    Kretprobe,
    Uprobe,
    Uretprobe,
}

/// When the image store may go to the registry for bytecode.
#[derive(Clone, Copy, PartialEq, Eq, Structural, Debug, Hash)]
pub enum ImagePullPolicy {
    Always,
    IfNotPresent,
    Never,
}

/// Failure to parse a client-supplied encoding of one of the types above.
pub enum ParseError {
    InvalidProgramType { program: String },
    InvalidProceedOn { proceedon: String },
    InvalidDirection,
    BytecodeLocationParseFailure(String),
    InvalidBytecodeLocation { location: String },
    BytecodePullFaiure(String),
    BytecodeMetaDataMismatch { image_sec_name: String, provided_sec_name: String },
}

impl ProgramType {
    /// Text name of the program type as used on the wire.
    pub open spec fn spec_str(self) -> Seq<char> {
        match self {
            ProgramType::Xdp => "xdp"@,
            ProgramType::Tc => "tc"@,
            ProgramType::Tracepoint => "tracepoint"@,
            ProgramType::Kprobe => "kprobe"@,
            ProgramType::Uprobe => "uprobe"@,
            ProgramType::Unsupported => "unsupported"@,
        }
    }

    pub fn to_string(&self) -> (r: String)
        ensures
            r@ == self.spec_str(),
    {
        match self {
            ProgramType::Xdp => String::from_str("xdp"),
            ProgramType::Tc => String::from_str("tc"),
            ProgramType::Tracepoint => String::from_str("tracepoint"),
            ProgramType::Kprobe => String::from_str("kprobe"),
            ProgramType::Uprobe => String::from_str("uprobe"),
            ProgramType::Unsupported => String::from_str("unsupported"),
        }
    }

    /// Program type named by `value`, accepting exactly the names that
    /// clients may put on the wire.
    pub fn try_from_string(value: String) -> (r: Result<ProgramType, ParseError>)
        ensures
            value@ == "xdp"@ ==> r == Ok::<ProgramType, ParseError>(ProgramType::Xdp),
            value@ == "tc"@ ==> r == Ok::<ProgramType, ParseError>(ProgramType::Tc),
            value@ == "tracepoint"@ ==> r == Ok::<ProgramType, ParseError>(
                ProgramType::Tracepoint,
            ),
            value@ != "xdp"@ && value@ != "tc"@ && value@ != "tracepoint"@ ==> (r matches Err(
                ParseError::InvalidProgramType { program },
            ) && program@ == value@),
    {
        proof {
            reveal_strlit("xdp");
            reveal_strlit("tc");
            reveal_strlit("tracepoint");
            assert("xdp"@.len() == 3);
            assert("tc"@.len() == 2);
            assert("tracepoint"@.len() == 10);
        }
        if value == String::from_str("xdp") {
            Ok(ProgramType::Xdp)
        } else if value == String::from_str("tc") {
            Ok(ProgramType::Tc)
        } else if value == String::from_str("tracepoint") {
            Ok(ProgramType::Tracepoint)
        } else {
            Err(ParseError::InvalidProgramType { program: value })
        }
    }

    /// Program type carried as a wire integer.
    pub fn try_from_int(value: i32) -> (r: Result<ProgramType, ParseError>)
        ensures
            value == 0 ==> r == Ok::<ProgramType, ParseError>(ProgramType::Xdp),
            value == 1 ==> r == Ok::<ProgramType, ParseError>(ProgramType::Tc),
            value == 2 ==> r == Ok::<ProgramType, ParseError>(ProgramType::Tracepoint),
            !(0 <= value <= 2) ==> (r matches Err(ParseError::InvalidProgramType { program })
                && program@ == spec_i32_dec(value as int)),
    {
        match value {
            0 => Ok(ProgramType::Xdp),
            1 => Ok(ProgramType::Tc),
            2 => Ok(ProgramType::Tracepoint),
            _ => Err(ParseError::InvalidProgramType { program: i32_to_string(value) }),
        }
    }
}

impl ProceedOn {
    /// Text name of the proceed-on code as used on the wire.
    pub open spec fn spec_str(self) -> Seq<char> {
        match self {
            ProceedOn::Aborted => "aborted"@,
            ProceedOn::Drop => "drop"@,
            ProceedOn::Pass => "pass"@,
            ProceedOn::Tx => "tx"@,
            ProceedOn::Redirect => "redirect"@,
            ProceedOn::DispatcherReturn => "dispatcher_return"@,
        }
    }

    /// Kernel-facing action code of the proceed-on value.
    pub open spec fn spec_int(self) -> u32 {
        match self {
            ProceedOn::Aborted => 0,
            ProceedOn::Drop => 1,
            ProceedOn::Pass => 2,
            ProceedOn::Tx => 3,
            ProceedOn::Redirect => 4,
            ProceedOn::DispatcherReturn => 31,
        }
    }

    pub fn to_string(&self) -> (r: String)
        ensures
            r@ == self.spec_str(),
    {
        match self {
            ProceedOn::Aborted => String::from_str("aborted"),
            ProceedOn::Drop => String::from_str("drop"),
            ProceedOn::Pass => String::from_str("pass"),
            ProceedOn::Tx => String::from_str("tx"),
            ProceedOn::Redirect => String::from_str("redirect"),
            ProceedOn::DispatcherReturn => String::from_str("dispatcher_return"),
        }
    }

    /// Proceed-on value named by `value`.
    pub fn try_from_string(value: String) -> (r: Result<ProceedOn, ParseError>)
        ensures
            r matches Ok(p) ==> value@ == p.spec_str(),
            r matches Err(e) ==> (e matches ParseError::InvalidProceedOn { proceedon }
                && proceedon@ == value@),
            value@ == "aborted"@ ==> r == Ok::<ProceedOn, ParseError>(ProceedOn::Aborted),
            value@ == "drop"@ ==> r == Ok::<ProceedOn, ParseError>(ProceedOn::Drop),
            value@ == "pass"@ ==> r == Ok::<ProceedOn, ParseError>(ProceedOn::Pass),
            value@ == "tx"@ ==> r == Ok::<ProceedOn, ParseError>(ProceedOn::Tx),
            value@ == "redirect"@ ==> r == Ok::<ProceedOn, ParseError>(ProceedOn::Redirect),
            value@ == "dispatcher_return"@ ==> r == Ok::<ProceedOn, ParseError>(
                ProceedOn::DispatcherReturn,
            ),
    {
        proof {
            reveal_strlit("aborted");
            reveal_strlit("drop");
            reveal_strlit("pass");
            reveal_strlit("tx");
            reveal_strlit("redirect");
            reveal_strlit("dispatcher_return");
            assert("aborted"@.len() == 7);
            assert("drop"@.len() == 4);
            assert("pass"@.len() == 4);
            assert("tx"@.len() == 2);
            assert("redirect"@.len() == 8);
            assert("dispatcher_return"@.len() == 17);
            assert("drop"@[0] == 'd' && "pass"@[0] == 'p');
        }
        if value == String::from_str("aborted") {
            Ok(ProceedOn::Aborted)
        } else if value == String::from_str("drop") {
            Ok(ProceedOn::Drop)
        } else if value == String::from_str("pass") {
            Ok(ProceedOn::Pass)
        } else if value == String::from_str("tx") {
            Ok(ProceedOn::Tx)
        } else if value == String::from_str("redirect") {
            Ok(ProceedOn::Redirect)
        } else if value == String::from_str("dispatcher_return") {
            Ok(ProceedOn::DispatcherReturn)
        } else {
            Err(ParseError::InvalidProceedOn { proceedon: value })
        }
    }

    /// Proceed-on value carried as a wire integer.
    pub fn try_from_int(value: u32) -> (r: Result<ProceedOn, ParseError>)
        ensures
            r matches Ok(p) ==> value == p.spec_int(),
            r is Err ==> (r matches Err(ParseError::InvalidProceedOn { proceedon })
                && proceedon@ == spec_u32_dec(value as nat)),
            value == 0 ==> r == Ok::<ProceedOn, ParseError>(ProceedOn::Aborted),
            value == 1 ==> r == Ok::<ProceedOn, ParseError>(ProceedOn::Drop),
            value == 2 ==> r == Ok::<ProceedOn, ParseError>(ProceedOn::Pass),
            value == 3 ==> r == Ok::<ProceedOn, ParseError>(ProceedOn::Tx),
            value == 4 ==> r == Ok::<ProceedOn, ParseError>(ProceedOn::Redirect),
            value == 31 ==> r == Ok::<ProceedOn, ParseError>(ProceedOn::DispatcherReturn),
    {
        match value {
            0 => Ok(ProceedOn::Aborted),
            1 => Ok(ProceedOn::Drop),
            2 => Ok(ProceedOn::Pass),
            3 => Ok(ProceedOn::Tx),
            4 => Ok(ProceedOn::Redirect),
            31 => Ok(ProceedOn::DispatcherReturn),
            _ => Err(ParseError::InvalidProceedOn { proceedon: u32_to_string(value) }),
        }
    }
}

impl Direction {
    /// Text name of the direction as used on the wire.
    pub open spec fn spec_str(self) -> Seq<char> {
        match self {
            Direction::Ingress => "ingress"@,
            Direction::Egress => "egress"@,
        }
    }

    pub fn to_string(&self) -> (r: String)
        ensures
            r@ == self.spec_str(),
    {
        match self {
            Direction::Ingress => String::from_str("ingress"),
            Direction::Egress => String::from_str("egress"),
        }
    }
}

/// Text for an optional direction; filter programs without one (XDP) report
/// `none`.
pub fn direction_opt_to_string(d: &Option<Direction>) -> (r: String)
    ensures
        d matches Some(dd) ==> r@ == dd.spec_str(),
        d is None ==> r@ == "none"@,
{
    match d {
        Some(dd) => dd.to_string(),
        None => String::from_str("none"),
    }
}

impl ImagePullPolicy {
    /// Pull policy carried as a wire integer.
    pub fn try_from_int(value: i32) -> (r: Result<ImagePullPolicy, ParseError>)
        ensures
            value == 0 ==> r == Ok::<ImagePullPolicy, ParseError>(ImagePullPolicy::Always),
            value == 1 ==> r == Ok::<ImagePullPolicy, ParseError>(ImagePullPolicy::IfNotPresent),
            value == 2 ==> r == Ok::<ImagePullPolicy, ParseError>(ImagePullPolicy::Never),
            !(0 <= value <= 2) ==> (r matches Err(ParseError::InvalidProgramType { program })
                && program@ == spec_i32_dec(value as int)),
    {
        match value {
            0 => Ok(ImagePullPolicy::Always),
            1 => Ok(ImagePullPolicy::IfNotPresent),
            2 => Ok(ImagePullPolicy::Never),
            _ => Err(ParseError::InvalidProgramType { program: i32_to_string(value) }),
        }
    }
}

} // verus!

