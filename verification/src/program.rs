//! The managed program: per-kind attach parameters around a common data
//! block, with the spec-level accessors the manager's contracts use.

use vstd::prelude::*;
use vstd::string::*;
use crate::image::BytecodeImage;
use crate::image::opt_string_view;
use crate::image::clone_opt_string;
use crate::types::Direction;
use crate::types::ProceedOn;
use crate::types::ProgramType;

verus! {

/// Where a program's bytecode comes from.
#[derive(Debug)]
pub enum Location {
    File(String),
    Image(BytecodeImage),
}

impl Clone for Location {
    fn clone(&self) -> (r: Self)
        ensures
            location_eqv(&r, self),
    {
        match self {
            Location::File(p) => Location::File(p.clone()),
            Location::Image(i) => Location::Image(i.clone()),
        }
    }
}

/// Whether two bytecode locations read the same.
pub open spec fn location_eqv(a: &Location, b: &Location) -> bool {
    match (a, b) {
        (Location::File(x), Location::File(y)) => x@ == y@,
        (Location::Image(x), Location::Image(y)) => {
            &&& x.image_url@ == y.image_url@
            &&& x.image_pull_policy == y.image_pull_policy
            &&& opt_string_view(&x.username) == opt_string_view(&y.username)
            &&& opt_string_view(&x.password) == opt_string_view(&y.password)
        },
        _ => false,
    }
}

/// What the kernel reports about one loaded program.
#[derive(Debug)]
pub struct KernelProgramInfo {
    pub id: u32,
    pub name: String,
    pub program_type: u32,
}

impl Clone for KernelProgramInfo {
    fn clone(&self) -> (r: Self)
        ensures
            r.id == self.id,
            r.name@ == self.name@,
            r.program_type == self.program_type,
    {
        KernelProgramInfo {
            id: self.id,
            name: self.name.clone(),
            program_type: self.program_type,
        }
    }
}

/// Data common to every managed program.
#[derive(Debug)]
pub struct ProgramData {
    /// Kernel id, once the kernel has assigned one.
    pub id: Option<u32>,
    /// BPF function symbol inside the object.
    pub name: String,
    /// ELF section name the client named.
    pub section_name: String,
    /// Where the bytecode comes from.
    pub location: Location,
    /// Global-data constants installed at load.
    pub global_data: Vec<(String, Vec<u8>)>,
    /// Bytecode, held only between fetch and load.
    pub program_bytes: Vec<u8>,
    /// Id of the program whose pinned maps this one reuses.
    pub map_owner_id: Option<u32>,
    /// Directory of the pinned maps this program uses.
    pub map_pin_path: Option<String>,
    /// Ids of every program sharing this program's maps.
    pub maps_used_by: Vec<u32>,
    /// Program type as the kernel reports it.
    pub kernel_program_type: Option<u32>,
    /// Whether the program is attached to its hook.
    pub attached: bool,
}

/// Whether two sequences of global-data entries read the same.
pub open spec fn global_data_eqv(a: Seq<(String, Vec<u8>)>, b: Seq<(String, Vec<u8>)>) -> bool {
    a.len() == b.len() && forall|i: int|
        0 <= i < a.len() ==> (#[trigger] a[i]).0@ == b[i].0@ && a[i].1@ == b[i].1@
}

/// Whether two data blocks read the same.
pub open spec fn data_eqv(a: &ProgramData, b: &ProgramData) -> bool {
    &&& a.id == b.id
    &&& a.name@ == b.name@
    &&& a.section_name@ == b.section_name@
    &&& location_eqv(&a.location, &b.location)
    &&& global_data_eqv(a.global_data@, b.global_data@)
    &&& a.program_bytes@ == b.program_bytes@
    &&& a.map_owner_id == b.map_owner_id
    &&& opt_string_view(&a.map_pin_path) == opt_string_view(&b.map_pin_path)
    &&& a.maps_used_by@ == b.maps_used_by@
    &&& a.kernel_program_type == b.kernel_program_type
    &&& a.attached == b.attached
}

impl Clone for ProgramData {
    fn clone(&self) -> (r: Self)
        ensures
            data_eqv(&r, self),
    {
        let mut gd: Vec<(String, Vec<u8>)> = Vec::new();
        let n = self.global_data.len();
        let mut i: usize = 0;
        while i < n
            invariant
                0 <= i <= n,
                n == self.global_data@.len(),
                gd@.len() == i,
                forall|k: int|
                    0 <= k < i ==> (#[trigger] gd@[k]).0@ == self.global_data@[k].0@ && gd@[k].1@
                        == self.global_data@[k].1@,
            decreases n - i,
        {
            let pair = (self.global_data[i].0.clone(), self.global_data[i].1.clone());
            gd.push(pair);
            i = i + 1;
        }
        ProgramData {
            id: self.id,
            name: self.name.clone(),
            section_name: self.section_name.clone(),
            location: self.location.clone(),
            global_data: gd,
            program_bytes: self.program_bytes.clone(),
            map_owner_id: self.map_owner_id,
            map_pin_path: clone_opt_string(&self.map_pin_path),
            maps_used_by: self.maps_used_by.clone(),
            kernel_program_type: self.kernel_program_type,
            attached: self.attached,
        }
    }
}

impl ProgramData {
    /// A fresh data block for a program not yet loaded.
    pub fn new(name: String, section_name: String, location: Location) -> (r: Self)
        ensures
            r.id is None,
            r.name@ == name@,
            r.section_name@ == section_name@,
            location_eqv(&r.location, &location),
            r.global_data@.len() == 0,
            r.program_bytes@.len() == 0,
            r.map_owner_id is None,
            r.map_pin_path is None,
            r.maps_used_by@.len() == 0,
            r.kernel_program_type is None,
            !r.attached,
    {
        let loc = location.clone();
        ProgramData {
            id: None,
            name,
            section_name,
            location: loc,
            global_data: Vec::new(),
            program_bytes: Vec::new(),
            map_owner_id: None,
            map_pin_path: None,
            maps_used_by: Vec::new(),
            kernel_program_type: None,
            attached: false,
        }
    }

    /// Records what the kernel assigned at load.
    pub fn set_kernel_info(&mut self, info: &KernelProgramInfo)
        ensures
            *final(self) == (ProgramData {
                id: Some(info.id),
                kernel_program_type: Some(info.program_type),
                ..*old(self)
            }),
    {
        self.id = Some(info.id);
        self.kernel_program_type = Some(info.program_type);
    }

    /// Installs the fetched bytecode.
    pub fn set_program_bytes(&mut self, bytes: Vec<u8>)
        ensures
            *final(self) == (ProgramData { program_bytes: bytes, ..*old(self) }),
    {
        self.program_bytes = bytes;
    }

    /// Drops the bytecode; it is never kept past a load attempt.
    pub fn clear_program_bytes(&mut self)
        ensures
            final(self).program_bytes@ == Seq::<u8>::empty(),
            *final(self) == (ProgramData { program_bytes: final(self).program_bytes, ..*old(self) }),
    {
        self.program_bytes = Vec::new();
    }

    pub fn set_map_pin_path(&mut self, path: String)
        ensures
            *final(self) == (ProgramData { map_pin_path: Some(path), ..*old(self) }),
    {
        self.map_pin_path = Some(path);
    }

    pub fn set_maps_used_by(&mut self, ids: Vec<u32>)
        ensures
            *final(self) == (ProgramData { maps_used_by: ids, ..*old(self) }),
    {
        self.maps_used_by = ids;
    }
}

/// An XDP filter program.
#[derive(Debug)]
pub struct XdpProgram {
    pub data: ProgramData,
    pub priority: i32,
    pub if_name: String,
    pub if_index: Option<u32>,
    pub position: Option<usize>,
    pub proceed_on: Vec<ProceedOn>,
}

/// A TC filter program.
#[derive(Debug)]
pub struct TcProgram {
    pub data: ProgramData,
    pub priority: i32,
    pub if_name: String,
    pub if_index: Option<u32>,
    pub position: Option<usize>,
    pub direction: Direction,
    pub proceed_on: Vec<ProceedOn>,
}

/// A tracepoint program; the hook is named `category/name`.
#[derive(Debug)]
pub struct TracepointProgram {
    pub data: ProgramData,
    pub tracepoint: String,
}

/// A kprobe or kretprobe program.
#[derive(Debug)]
pub struct KprobeProgram {
    pub data: ProgramData,
    pub fn_name: String,
    pub offset: u64,
    pub retprobe: bool,
}

/// A uprobe or uretprobe program.
#[derive(Debug)]
pub struct UprobeProgram {
    pub data: ProgramData,
    pub fn_name: Option<String>,
    pub target: String,
    pub offset: u64,
    pub retprobe: bool,
    pub pid: Option<i32>,
    pub container_pid: Option<i32>,
}

/// A managed program of any kind.
#[derive(Debug)]
pub enum Program {
    Xdp(XdpProgram),
    Tc(TcProgram),
    Tracepoint(TracepointProgram),
    Kprobe(KprobeProgram),
    Uprobe(UprobeProgram),
    Unsupported(ProgramData),
}

/// Whether two programs read the same.
pub open spec fn prog_eqv(a: &Program, b: &Program) -> bool {
    match (a, b) {
        (Program::Xdp(x), Program::Xdp(y)) => {
            &&& data_eqv(&x.data, &y.data)
            &&& x.priority == y.priority
            &&& x.if_name@ == y.if_name@
            &&& x.if_index == y.if_index
            &&& x.position == y.position
            &&& x.proceed_on@ == y.proceed_on@
        },
        (Program::Tc(x), Program::Tc(y)) => {
            &&& data_eqv(&x.data, &y.data)
            &&& x.priority == y.priority
            &&& x.if_name@ == y.if_name@
            &&& x.if_index == y.if_index
            &&& x.position == y.position
            &&& x.direction == y.direction
            &&& x.proceed_on@ == y.proceed_on@
        },
        (Program::Tracepoint(x), Program::Tracepoint(y)) => {
            &&& data_eqv(&x.data, &y.data)
            &&& x.tracepoint@ == y.tracepoint@
        },
        (Program::Kprobe(x), Program::Kprobe(y)) => {
            &&& data_eqv(&x.data, &y.data)
            &&& x.fn_name@ == y.fn_name@
            &&& x.offset == y.offset
            &&& x.retprobe == y.retprobe
        },
        (Program::Uprobe(x), Program::Uprobe(y)) => {
            &&& data_eqv(&x.data, &y.data)
            &&& opt_string_view(&x.fn_name) == opt_string_view(&y.fn_name)
            &&& x.target@ == y.target@
            &&& x.offset == y.offset
            &&& x.retprobe == y.retprobe
            &&& x.pid == y.pid
            &&& x.container_pid == y.container_pid
        },
        (Program::Unsupported(x), Program::Unsupported(y)) => data_eqv(x, y),
        _ => false,
    }
}

impl Clone for Program {
    fn clone(&self) -> (r: Self)
        ensures
            prog_eqv(&r, self),
    {
        match self {
            Program::Xdp(x) => Program::Xdp(
                XdpProgram {
                    data: x.data.clone(),
                    priority: x.priority,
                    if_name: x.if_name.clone(),
                    if_index: x.if_index,
                    position: x.position,
                    proceed_on: x.proceed_on.clone(),
                },
            ),
            Program::Tc(x) => Program::Tc(
                TcProgram {
                    data: x.data.clone(),
                    priority: x.priority,
                    if_name: x.if_name.clone(),
                    if_index: x.if_index,
                    position: x.position,
                    direction: x.direction,
                    proceed_on: x.proceed_on.clone(),
                },
            ),
            Program::Tracepoint(x) => Program::Tracepoint(
                TracepointProgram { data: x.data.clone(), tracepoint: x.tracepoint.clone() },
            ),
            Program::Kprobe(x) => Program::Kprobe(
                KprobeProgram {
                    data: x.data.clone(),
                    fn_name: x.fn_name.clone(),
                    offset: x.offset,
                    retprobe: x.retprobe,
                },
            ),
            Program::Uprobe(x) => Program::Uprobe(
                UprobeProgram {
                    data: x.data.clone(),
                    fn_name: clone_opt_string(&x.fn_name),
                    target: x.target.clone(),
                    offset: x.offset,
                    retprobe: x.retprobe,
                    pid: x.pid,
                    container_pid: x.container_pid,
                },
            ),
            Program::Unsupported(d) => Program::Unsupported(d.clone()),
        }
    }
}

impl Program {
    /// Kind tag of the program.
    pub open spec fn spec_kind(&self) -> ProgramType {
        match self {
            Program::Xdp(_) => ProgramType::Xdp,
            Program::Tc(_) => ProgramType::Tc,
            Program::Tracepoint(_) => ProgramType::Tracepoint,
            Program::Kprobe(_) => ProgramType::Kprobe,
            Program::Uprobe(_) => ProgramType::Uprobe,
            Program::Unsupported(_) => ProgramType::Unsupported,
        }
    }

    #[verifier::when_used_as_spec(spec_kind)]
    pub fn kind(&self) -> (r: ProgramType)
        ensures
            r == self.spec_kind(),
    {
        match self {
            Program::Xdp(_) => ProgramType::Xdp,
            Program::Tc(_) => ProgramType::Tc,
            Program::Tracepoint(_) => ProgramType::Tracepoint,
            Program::Kprobe(_) => ProgramType::Kprobe,
            Program::Uprobe(_) => ProgramType::Uprobe,
            Program::Unsupported(_) => ProgramType::Unsupported,
        }
    }

    /// The common data block.
    pub open spec fn spec_data(&self) -> &ProgramData {
        match self {
            Program::Xdp(x) => &x.data,
            Program::Tc(x) => &x.data,
            Program::Tracepoint(x) => &x.data,
            Program::Kprobe(x) => &x.data,
            Program::Uprobe(x) => &x.data,
            Program::Unsupported(d) => d,
        }
    }

    #[verifier::when_used_as_spec(spec_data)]
    pub fn get_data(&self) -> (r: &ProgramData)
        ensures
            r == self.spec_data(),
    {
        match self {
            Program::Xdp(x) => &x.data,
            Program::Tc(x) => &x.data,
            Program::Tracepoint(x) => &x.data,
            Program::Kprobe(x) => &x.data,
            Program::Uprobe(x) => &x.data,
            Program::Unsupported(d) => d,
        }
    }

    /// The program, with its data block replaced.
    pub open spec fn spec_with_data(self, d: ProgramData) -> Program {
        match self {
            Program::Xdp(x) => Program::Xdp(XdpProgram { data: d, ..x }),
            Program::Tc(x) => Program::Tc(TcProgram { data: d, ..x }),
            Program::Tracepoint(x) => Program::Tracepoint(TracepointProgram { data: d, ..x }),
            Program::Kprobe(x) => Program::Kprobe(KprobeProgram { data: d, ..x }),
            Program::Uprobe(x) => Program::Uprobe(UprobeProgram { data: d, ..x }),
            Program::Unsupported(_) => Program::Unsupported(d),
        }
    }

    pub fn get_data_mut(&mut self) -> (r: &mut ProgramData)
        ensures
            *r == *old(self).spec_data(),
            *final(self) == old(self).spec_with_data(*final(r)),
    {
        match self {
            Program::Xdp(x) => &mut x.data,
            Program::Tc(x) => &mut x.data,
            Program::Tracepoint(x) => &mut x.data,
            Program::Kprobe(x) => &mut x.data,
            Program::Uprobe(x) => &mut x.data,
            Program::Unsupported(d) => d,
        }
    }

    /// Interface index of a filter program.
    pub open spec fn spec_if_index(&self) -> Option<u32> {
        match self {
            Program::Xdp(x) => x.if_index,
            Program::Tc(x) => x.if_index,
            _ => None,
        }
    }

    #[verifier::when_used_as_spec(spec_if_index)]
    pub fn if_index(&self) -> (r: Option<u32>)
        ensures
            r == self.spec_if_index(),
    {
        match self {
            Program::Xdp(x) => x.if_index,
            Program::Tc(x) => x.if_index,
            _ => None,
        }
    }

    /// Records the interface index resolved from the interface name.
    pub fn set_if_index(&mut self, idx: u32)
        requires
            (*old(self)) is Xdp || (*old(self)) is Tc,
        ensures
            final(self).spec_if_index() == Some(idx),
            equal_but_if_index(old(self), final(self)),
    {
        match self {
            Program::Xdp(x) => x.if_index = Some(idx),
            Program::Tc(x) => x.if_index = Some(idx),
            _ => (),
        }
    }

    /// Interface name of a filter program.
    pub open spec fn spec_if_name(&self) -> Option<&String> {
        match self {
            Program::Xdp(x) => Some(&x.if_name),
            Program::Tc(x) => Some(&x.if_name),
            _ => None,
        }
    }

    #[verifier::when_used_as_spec(spec_if_name)]
    pub fn if_name(&self) -> (r: Option<&String>)
        ensures
            r == self.spec_if_name(),
    {
        match self {
            Program::Xdp(x) => Some(&x.if_name),
            Program::Tc(x) => Some(&x.if_name),
            _ => None,
        }
    }

    /// Direction of a TC filter program.
    pub open spec fn spec_direction(&self) -> Option<Direction> {
        match self {
            Program::Tc(x) => Some(x.direction),
            _ => None,
        }
    }

    #[verifier::when_used_as_spec(spec_direction)]
    pub fn direction(&self) -> (r: Option<Direction>)
        ensures
            r == self.spec_direction(),
    {
        match self {
            Program::Tc(x) => Some(x.direction),
            _ => None,
        }
    }

    /// Chain priority of a filter program.
    pub open spec fn spec_priority(&self) -> Option<i32> {
        match self {
            Program::Xdp(x) => Some(x.priority),
            Program::Tc(x) => Some(x.priority),
            _ => None,
        }
    }

    #[verifier::when_used_as_spec(spec_priority)]
    pub fn priority(&self) -> (r: Option<i32>)
        ensures
            r == self.spec_priority(),
    {
        match self {
            Program::Xdp(x) => Some(x.priority),
            Program::Tc(x) => Some(x.priority),
            _ => None,
        }
    }

    /// Dispatcher slot of a filter program.
    pub open spec fn spec_position(&self) -> Option<usize> {
        match self {
            Program::Xdp(x) => x.position,
            Program::Tc(x) => x.position,
            _ => None,
        }
    }

    #[verifier::when_used_as_spec(spec_position)]
    pub fn position(&self) -> (r: Option<usize>)
        ensures
            r == self.spec_position(),
    {
        match self {
            Program::Xdp(x) => x.position,
            Program::Tc(x) => x.position,
            _ => None,
        }
    }

    /// Assigns the dispatcher slot computed by the ordering.
    pub fn set_position(&mut self, pos: usize)
        requires
            (*old(self)) is Xdp || (*old(self)) is Tc,
        ensures
            final(self).spec_position() == Some(pos),
            equal_but_position(old(self), final(self)),
    {
        match self {
            Program::Xdp(x) => x.position = Some(pos),
            Program::Tc(x) => x.position = Some(pos),
            _ => (),
        }
    }

    /// Whether the program is attached to its hook.
    pub open spec fn spec_attached(&self) -> bool {
        self.spec_data().attached
    }

    #[verifier::when_used_as_spec(spec_attached)]
    pub fn attached(&self) -> (r: bool)
        ensures
            r == self.spec_attached(),
    {
        self.get_data().attached
    }

    /// Marks the program attached.
    pub fn set_attached(&mut self)
        ensures
            *final(self) == old(self).spec_with_data(
                ProgramData { attached: true, ..*old(self).spec_data() },
            ),
    {
        let d = self.get_data_mut();
        d.attached = true;
    }
}

/// Whether `b` is `a` with at most the interface index changed.
pub open spec fn equal_but_if_index(a: &Program, b: &Program) -> bool {
    match (a, b) {
        (Program::Xdp(x), Program::Xdp(y)) => *y == XdpProgram { if_index: y.if_index, ..*x },
        (Program::Tc(x), Program::Tc(y)) => *y == TcProgram { if_index: y.if_index, ..*x },
        _ => a == b,
    }
}

/// Whether `b` is `a` with at most the position changed.
pub open spec fn equal_but_position(a: &Program, b: &Program) -> bool {
    match (a, b) {
        (Program::Xdp(x), Program::Xdp(y)) => *y == XdpProgram { position: y.position, ..*x },
        (Program::Tc(x), Program::Tc(y)) => *y == TcProgram { position: y.position, ..*x },
        _ => a == b,
    }
}

/// Whether a program is a filter program for the given hook.
pub open spec fn is_filter_at(
    p: &Program,
    kind: ProgramType,
    if_index: u32,
    direction: Option<Direction>,
) -> bool {
    p.spec_kind() == kind && p.spec_if_index() == Some(if_index) && p.spec_direction() == direction
}

} // verus!
