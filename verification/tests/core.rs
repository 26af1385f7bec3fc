use bpfman::dispatcher::Dispatcher;
use bpfman::image::pull_action;
use bpfman::image::BytecodeImage;
use bpfman::image::PullAction;
use bpfman::types::ImagePullPolicy;
use bpfman::dispatcher::DispatcherId;
use bpfman::dispatcher::DispatcherMap;
use bpfman::program::Location;
use bpfman::program::Program;
use bpfman::program::ProgramData;
use bpfman::program::XdpProgram;
use bpfman::progmap::ProgramMap;
use bpfman::progmap::SlotTarget;
use bpfman::types::Direction;
use bpfman::types::ProceedOn;
use bpfman::types::ProgramType;
use bpfman::utils::bytes_to_bool;
use bpfman::utils::bytes_to_i32;
use bpfman::utils::bytes_to_string;
use bpfman::utils::bytes_to_u32;
use bpfman::utils::bytes_to_u64;
use bpfman::utils::bytes_to_usize;
use bpfman::utils::parse_global_arg;
use bpfman::utils::should_map_be_pinned;
use bpfman::manager::BpfManager;
use bpfman::manager::RebuildMultiAction;
use bpfman::manager::RemoveMultiAction;
use bpfman::manager::SingleAttachSpec;
use bpfman::manager::container_attach_args;
use bpfman::manager::plan_single_attach;
use bpfman::program::KprobeProgram;
use bpfman::program::TracepointProgram;
use bpfman::types::ParseError;

fn xdp_program(name: &str, priority: i32, if_index: u32, attached: bool) -> Program {
    let mut data = ProgramData::new(
        String::from(name),
        String::from("xdp"),
        Location::File(String::from("/tmp/pass.o")),
    );
    data.attached = attached;
    Program::Xdp(XdpProgram {
        data,
        priority,
        if_name: String::from("lo"),
        if_index: Some(if_index),
        position: None,
        proceed_on: vec![ProceedOn::Pass, ProceedOn::DispatcherReturn],
    })
}

#[test]
fn program_type_text_round_trip() {
    assert_eq!(ProgramType::Xdp.to_string(), "xdp");
    assert_eq!(ProgramType::Tc.to_string(), "tc");
    assert_eq!(ProgramType::Tracepoint.to_string(), "tracepoint");
    assert!(matches!(
        ProgramType::try_from_string(String::from("xdp")),
        Ok(ProgramType::Xdp)
    ));
    assert!(matches!(
        ProgramType::try_from_string(String::from("tc")),
        Ok(ProgramType::Tc)
    ));
    assert!(matches!(
        ProgramType::try_from_string(String::from("tracepoint")),
        Ok(ProgramType::Tracepoint)
    ));
    assert!(ProgramType::try_from_string(String::from("socketfilter")).is_err());
    assert!(matches!(ProgramType::try_from_int(0), Ok(ProgramType::Xdp)));
    assert!(matches!(ProgramType::try_from_int(1), Ok(ProgramType::Tc)));
    assert!(matches!(
        ProgramType::try_from_int(2),
        Ok(ProgramType::Tracepoint)
    ));
    assert!(ProgramType::try_from_int(7).is_err());
}

#[test]
fn proceed_on_text_and_codes() {
    assert_eq!(ProceedOn::Aborted.to_string(), "aborted");
    assert_eq!(ProceedOn::DispatcherReturn.to_string(), "dispatcher_return");
    assert!(matches!(
        ProceedOn::try_from_string(String::from("pass")),
        Ok(ProceedOn::Pass)
    ));
    assert!(matches!(
        ProceedOn::try_from_string(String::from("dispatcher_return")),
        Ok(ProceedOn::DispatcherReturn)
    ));
    assert!(ProceedOn::try_from_string(String::from("continue")).is_err());
    assert!(matches!(ProceedOn::try_from_int(2), Ok(ProceedOn::Pass)));
    assert!(matches!(
        ProceedOn::try_from_int(31),
        Ok(ProceedOn::DispatcherReturn)
    ));
    assert!(ProceedOn::try_from_int(5).is_err());
}

#[test]
fn direction_text() {
    assert_eq!(Direction::Ingress.to_string(), "ingress");
    assert_eq!(Direction::Egress.to_string(), "egress");
}

#[test]
fn store_scalars_round_trip() {
    assert_eq!(bytes_to_u32(vec![0x78, 0x56, 0x34, 0x12]), 0x12345678);
    assert_eq!(bytes_to_i32(vec![0xff, 0xff, 0xff, 0xff]), -1);
    assert_eq!(bytes_to_i32(vec![0x2a, 0, 0, 0]), 42);
    assert_eq!(
        bytes_to_u64(vec![1, 0, 0, 0, 2, 0, 0, 0]),
        1 + (2u64 << 32)
    );
    assert_eq!(bytes_to_usize(vec![7, 0, 0, 0, 0, 0, 0, 0]), 7);
    assert!(bytes_to_bool(vec![1]));
    assert!(!bytes_to_bool(vec![0]));
    assert_eq!(bytes_to_string("dispatch".as_bytes()), "dispatch");
}

#[test]
fn codec_put_parse_round_trip() {
    let mut buf: Vec<u8> = Vec::new();
    bpfman::store::put_u32(&mut buf, 0xdeadbeef);
    bpfman::store::put_u64(&mut buf, 0x1122334455667788);
    bpfman::store::put_string(&mut buf, "xdp_pass");
    bpfman::store::put_bool(&mut buf, true);
    bpfman::store::put_opt_u32(&mut buf, &Some(99));
    bpfman::store::put_u32_list(&mut buf, &vec![5, 6, 7]);

    let (v, p) = bpfman::store::parse_u32(&buf, 0).unwrap();
    assert_eq!(v, 0xdeadbeef);
    let (v, p) = bpfman::store::parse_u64(&buf, p).unwrap();
    assert_eq!(v, 0x1122334455667788);
    let (s, p) = bpfman::store::parse_string(&buf, p).unwrap();
    assert_eq!(s, "xdp_pass");
    let (b, p) = bpfman::store::parse_bool(&buf, p).unwrap();
    assert!(b);
    let (o, p) = bpfman::store::parse_opt_u32(&buf, p).unwrap();
    assert_eq!(o, Some(99));
    let (l, p) = bpfman::store::parse_u32_list(&buf, p).unwrap();
    assert_eq!(l, vec![5, 6, 7]);
    assert_eq!(p, buf.len());
    assert!(bpfman::store::parse_u32(&buf, buf.len()).is_none());
}

#[test]
fn decimal_text_round_trip() {
    assert_eq!(bpfman::strutil::u32_to_string(0), "0");
    assert_eq!(bpfman::strutil::u32_to_string(4294967295), "4294967295");
    assert_eq!(bpfman::strutil::try_parse_u32("123"), Some(123));
    assert_eq!(bpfman::strutil::try_parse_u32("4294967295"), Some(4294967295));
    assert_eq!(bpfman::strutil::try_parse_u32("4294967296"), None);
    assert_eq!(bpfman::strutil::try_parse_u32(""), None);
    assert_eq!(bpfman::strutil::try_parse_u32("12a"), None);
}

#[test]
fn map_name_pin_filter() {
    assert!(should_map_be_pinned("xdp_stats_map"));
    assert!(!should_map_be_pinned("prog.rodata"));
    assert!(!should_map_be_pinned("prog.bss"));
    assert!(!should_map_be_pinned("prog.data"));
    assert!(!should_map_be_pinned("xdp_pass.rodata.1"));
}

#[test]
fn global_arg_parsing() {
    let g = parse_global_arg("GLOBAL_u8=01").unwrap();
    assert_eq!(g.name, "GLOBAL_u8");
    assert_eq!(g.value, vec![0x01]);
    let g = parse_global_arg("X=0a0B").unwrap();
    assert_eq!(g.value, vec![0x0a, 0x0b]);
    assert!(parse_global_arg("NOVALUE").is_err());
    assert!(parse_global_arg("X=").is_err());
    assert!(parse_global_arg("X=0g").is_err());
    assert!(parse_global_arg("X=123").is_err());
}

#[test]
fn dispatcher_revision_increments() {
    let d = Dispatcher {
        kind: ProgramType::Xdp,
        if_index: 1,
        if_name: String::from("lo"),
        direction: None,
        revision: 1,
        num_extensions: 1,
    };
    assert_eq!(d.next_revision(), 2);
    let wrapped = Dispatcher { revision: u32::MAX, ..d };
    assert_eq!(wrapped.next_revision(), 0);
}

#[test]
fn dispatcher_map_counts_extensions() {
    let mut dm = DispatcherMap::new();
    let did = DispatcherId::Xdp(1);
    assert_eq!(dm.attached_programs(&did), 0);
    let d = Dispatcher {
        kind: ProgramType::Xdp,
        if_index: 1,
        if_name: String::from("lo"),
        direction: None,
        revision: 1,
        num_extensions: 3,
    };
    assert!(dm.insert(did, d).is_none());
    assert_eq!(dm.attached_programs(&did), 3);
    assert_eq!(
        dm.attached_programs(&DispatcherId::Tc(1, Direction::Ingress)),
        0
    );
    let old = dm.remove(did).unwrap();
    assert_eq!(old.num_extensions, 3);
    assert_eq!(dm.attached_programs(&did), 0);
}

#[test]
fn priority_ordering_assigns_positions() {
    // Three filter programs on one hook: zeta at priority 100, alpha and
    // beta at priority 50.  Expect alpha=0, beta=1, zeta=2.
    let mut pm = ProgramMap::new();
    pm.insert(10, xdp_program("zeta", 100, 1, false));
    pm.insert(11, xdp_program("alpha", 50, 1, false));
    pm.insert(12, xdp_program("beta", 50, 1, false));
    let order = pm.set_program_positions(ProgramType::Xdp, 1, None);
    let targets: Vec<SlotTarget> = order.iter().map(|it| it.target).collect();
    assert_eq!(
        targets,
        vec![
            SlotTarget::Existing(11),
            SlotTarget::Existing(12),
            SlotTarget::Existing(10)
        ]
    );
    assert_eq!(pm.get(11).unwrap().position(), Some(0));
    assert_eq!(pm.get(12).unwrap().position(), Some(1));
    assert_eq!(pm.get(10).unwrap().position(), Some(2));
}

#[test]
fn attached_programs_sort_first() {
    let mut pm = ProgramMap::new();
    pm.insert(20, xdp_program("later", 50, 1, true));
    pm.insert(21, xdp_program("earlier", 50, 1, false));
    let order = pm.set_program_positions(ProgramType::Xdp, 1, None);
    assert_eq!(order[0].target, SlotTarget::Existing(20));
    assert_eq!(order[1].target, SlotTarget::Existing(21));
}

#[test]
fn planning_an_add_reserves_a_slot() {
    let mut pm = ProgramMap::new();
    pm.insert(30, xdp_program("alpha", 50, 1, false));
    pm.insert(31, xdp_program("gamma", 100, 1, false));
    let newcomer = xdp_program("beta", 75, 1, false);
    let order = pm.plan_add_positions(&newcomer);
    assert_eq!(order.len(), 3);
    assert_eq!(order[0].target, SlotTarget::Existing(30));
    assert_eq!(order[1].target, SlotTarget::New);
    assert_eq!(order[2].target, SlotTarget::Existing(31));
    assert_eq!(bpfman::progmap::find_new_slot(&order), Some(1));
    // Planning alone moves nothing.
    assert_eq!(pm.get(30).unwrap().position(), None);
    assert_eq!(pm.get(31).unwrap().position(), None);
}

#[test]
fn other_hooks_are_left_alone() {
    let mut pm = ProgramMap::new();
    pm.insert(40, xdp_program("one", 1, 1, false));
    pm.insert(41, xdp_program("other_iface", 1, 2, false));
    pm.set_program_positions(ProgramType::Xdp, 1, None);
    assert_eq!(pm.get(40).unwrap().position(), Some(0));
    assert_eq!(pm.get(41).unwrap().position(), None);
}

#[test]
fn program_map_insert_get_remove() {
    let mut pm = ProgramMap::new();
    assert!(pm.get(1).is_none());
    assert!(pm.insert(1, xdp_program("a", 1, 1, false)).is_none());
    assert!(pm.insert(1, xdp_program("b", 2, 1, false)).is_some());
    match pm.get(1) {
        Some(p) => assert_eq!(p.priority(), Some(2)),
        None => panic!("expected a program under id 1"),
    }
    assert!(pm.remove(1).is_some());
    assert!(pm.get(1).is_none());
    assert!(pm.remove(1).is_none());
}

#[test]
fn image_pull_policy_decisions() {
    assert!(matches!(
        pull_action(ImagePullPolicy::Always, true),
        PullAction::PullFromRegistry
    ));
    assert!(matches!(
        pull_action(ImagePullPolicy::Always, false),
        PullAction::PullFromRegistry
    ));
    assert!(matches!(
        pull_action(ImagePullPolicy::IfNotPresent, true),
        PullAction::UseCached
    ));
    assert!(matches!(
        pull_action(ImagePullPolicy::IfNotPresent, false),
        PullAction::PullFromRegistry
    ));
    assert!(matches!(
        pull_action(ImagePullPolicy::Never, true),
        PullAction::UseCached
    ));
    assert!(matches!(
        pull_action(ImagePullPolicy::Never, false),
        PullAction::Fail
    ));
}

#[test]
fn bytecode_image_credentials() {
    let img = BytecodeImage::from_request(
        String::from("quay.io/bpfman-bytecode/xdp_pass:latest"),
        1,
        Some(String::from("")),
        None,
    );
    assert!(img.username.is_none());
    assert!(img.password.is_none());
    let img = BytecodeImage::new(
        String::from("quay.io/bpfman-bytecode/xdp_pass:latest"),
        0,
        Some(String::from("user")),
        Some(String::from("example-pass")),
    );
    assert_eq!(img.get_url(), "quay.io/bpfman-bytecode/xdp_pass:latest");
    assert!(matches!(
        img.get_pull_policy(),
        bpfman::types::ImagePullPolicy::Always
    ));
}

#[test]
fn string_helpers() {
    assert!(bpfman::strutil::str_le("alpha", "beta"));
    assert!(bpfman::strutil::str_le("alpha", "alpha"));
    assert!(!bpfman::strutil::str_le("beta", "alpha"));
    assert!(bpfman::strutil::str_le("alp", "alpha"));
    assert!(bpfman::strutil::str_contains("xdp_dispatcher", "dispatch"));
    assert!(!bpfman::strutil::str_contains("xdp", "tc"));
    let (a, b) = bpfman::strutil::split_once_unique("sched/sched_switch", '/').unwrap();
    assert_eq!(a, "sched");
    assert_eq!(b, "sched_switch");
    assert!(bpfman::strutil::split_once_unique("a/b/c", '/').is_none());
    assert!(bpfman::strutil::split_once_unique("noslash", '/').is_none());
    assert_eq!(
        bpfman::strutil::replace_char("library/busybox", '/', '_'),
        "library_busybox"
    );
}

#[test]
fn capacity_refuses_an_eleventh_program() {
    let mut mgr = bpfman::manager::BpfManager::new();
    let full = Dispatcher {
        kind: ProgramType::Xdp,
        if_index: 1,
        if_name: String::from("lo"),
        direction: None,
        revision: 7,
        num_extensions: 10,
    };
    mgr.dispatchers.insert(DispatcherId::Xdp(1), full);
    let candidate = xdp_program("omega", 50, 1, false);
    let r = mgr.plan_add_multi_attach(&candidate, true);
    assert!(matches!(r, Err(bpfman::errors::BpfmanError::TooManyPrograms)));

    // One slot left: the plan goes through, at the next revision.
    let room = Dispatcher {
        kind: ProgramType::Xdp,
        if_index: 1,
        if_name: String::from("lo"),
        direction: None,
        revision: 7,
        num_extensions: 9,
    };
    mgr.dispatchers.insert(DispatcherId::Xdp(1), room);
    let plan = mgr.plan_add_multi_attach(&candidate, true).unwrap();
    assert_eq!(plan.did, DispatcherId::Xdp(1));
    assert_eq!(plan.next_revision, 8);
    assert_eq!(plan.order.len(), 1);

    // An object without the announced symbol is refused before anything else.
    let r = mgr.plan_add_multi_attach(&candidate, false);
    assert!(matches!(
        r,
        Err(bpfman::errors::BpfmanError::BpfFunctionNameNotValid(_))
    ));
}

#[test]
fn map_sharing_keeps_directory_alive() {
    let mut mgr = bpfman::manager::BpfManager::new();

    // Program 1 owns its maps.
    let mut p1 = xdp_program("owner", 10, 1, false);
    mgr.save_map(&mut p1, 1, None).unwrap();
    assert_eq!(p1.get_data().maps_used_by, vec![1]);
    mgr.programs.insert(1, p1);

    // Program 2 shares program 1's maps; both now list [1, 2].
    let mut p2 = xdp_program("sharer", 20, 1, false);
    mgr.save_map(&mut p2, 2, Some(1)).unwrap();
    assert_eq!(p2.get_data().maps_used_by, vec![1, 2]);
    assert_eq!(mgr.programs.get(1).unwrap().get_data().maps_used_by, vec![1, 2]);
    mgr.programs.insert(2, p2);

    // Sharing with an unknown owner is refused.
    let mut p3 = xdp_program("stray", 30, 1, false);
    assert!(mgr.save_map(&mut p3, 3, Some(99)).is_err());

    // Unloading the owner keeps the directory: program 2 still uses it.
    let keep = mgr.delete_map(1, None).unwrap();
    assert!(!keep, "directory must stay while a sharer remains");
    assert_eq!(mgr.programs.get(2).unwrap().get_data().maps_used_by, vec![2]);

    // The last member takes the directory with it.
    let gone = mgr.delete_map(2, Some(1)).unwrap();
    assert!(gone, "last member out removes the directory");
    assert!(mgr.delete_map(2, Some(1)).is_err());
}

#[test]
fn map_owner_validation_and_path() {
    let mut mgr = bpfman::manager::BpfManager::new();
    assert!(mgr.is_map_owner_id_valid(7).is_err());
    let mut p = xdp_program("owner", 1, 1, false);
    mgr.save_map(&mut p, 7, None).unwrap();
    assert_eq!(mgr.is_map_owner_id_valid(7).unwrap(), "/run/bpfd/fs/maps/7");
    assert_eq!(bpfman::manager::calc_map_pin_path(42), "/run/bpfd/fs/maps/42");
    assert!(mgr.cleanup_map_pin_path(None));
    assert!(!mgr.cleanup_map_pin_path(Some(7)));
}

#[test]
fn unknown_interface_is_invalid() {
    let r = bpfman::utils::get_ifindex("no-such-interface-name-xyz");
    assert!(matches!(
        r,
        Err(bpfman::errors::BpfmanError::InvalidInterface)
    ));
}

#[test]
fn kretprobe_rejects_offset() {
    let data = ProgramData::new(
        String::from("probe"),
        String::from("kprobe"),
        Location::File(String::from("/tmp/probe.o")),
    );
    let bad = Program::Kprobe(KprobeProgram {
        data,
        fn_name: String::from("try_to_wake_up"),
        offset: 8,
        retprobe: true,
    });
    assert!(matches!(
        plan_single_attach(&bad),
        Err(bpfman::errors::BpfmanError::Error(_))
    ));

    let data = ProgramData::new(
        String::from("probe"),
        String::from("kprobe"),
        Location::File(String::from("/tmp/probe.o")),
    );
    let good = Program::Kprobe(KprobeProgram {
        data,
        fn_name: String::from("try_to_wake_up"),
        offset: 8,
        retprobe: false,
    });
    match plan_single_attach(&good).unwrap() {
        SingleAttachSpec::Kprobe { fn_name, offset, retprobe } => {
            assert_eq!(fn_name, "try_to_wake_up");
            assert_eq!(offset, 8);
            assert!(!retprobe);
        }
        _ => panic!("expected a kprobe attachment"),
    }
}

#[test]
fn tracepoint_hook_must_be_category_slash_name() {
    let mk = |hook: &str| {
        Program::Tracepoint(TracepointProgram {
            data: ProgramData::new(
                String::from("tp"),
                String::from("tracepoint"),
                Location::File(String::from("/tmp/tp.o")),
            ),
            tracepoint: String::from(hook),
        })
    };
    match plan_single_attach(&mk("sched/sched_switch")).unwrap() {
        SingleAttachSpec::Tracepoint { category, name } => {
            assert_eq!(category, "sched");
            assert_eq!(name, "sched_switch");
        }
        _ => panic!("expected a tracepoint attachment"),
    }
    assert!(plan_single_attach(&mk("nocategory")).is_err());
    assert!(plan_single_attach(&mk("a/b/c")).is_err());
}

#[test]
fn filter_load_commits_or_leaves_no_trace() {
    let mut mgr = BpfManager::new();
    mgr.programs.insert(5, xdp_program("alpha", 10, 1, true));

    // A failed build leaves everything untouched.
    let candidate = xdp_program("beta", 20, 1, false);
    let r = mgr.add_filter_program(
        candidate,
        Ok(vec![0x7f]),
        true,
        Err(bpfman::errors::BpfmanError::BpfProgramError(String::from("verifier refused"))),
    );
    assert!(r.is_err());
    assert!(mgr.programs.get(5).is_some());
    assert!(mgr.programs.get(9).is_none());
    assert_eq!(mgr.dispatchers.attached_programs(&DispatcherId::Xdp(1)), 0);

    // A successful build commits: both programs take their slots and the
    // dispatcher appears at revision 1.
    let candidate = xdp_program("beta", 20, 1, false);
    let id = mgr.add_filter_program(candidate, Ok(vec![0x7f]), true, Ok(9)).unwrap();
    assert_eq!(id, 9);
    assert_eq!(mgr.programs.get(5).unwrap().position(), Some(0));
    let newcomer = mgr.programs.get(9).unwrap();
    assert_eq!(newcomer.position(), Some(1));
    assert!(newcomer.attached());
    assert_eq!(mgr.dispatchers.attached_programs(&DispatcherId::Xdp(1)), 2);

    // A fetch failure is handed back unchanged, with no state change.
    let candidate = xdp_program("gamma", 30, 1, false);
    let r = mgr.add_filter_program(
        candidate,
        Err(bpfman::errors::BpfmanError::BpfBytecodeError(
            bpfman::errors::ImageError::BytecodeImageExtractFailure,
        )),
        true,
        Ok(11),
    );
    assert!(matches!(r, Err(bpfman::errors::BpfmanError::BpfBytecodeError(_))));
    assert!(mgr.programs.get(11).is_none());
}

#[test]
fn removing_last_extension_tears_down() {
    let mut mgr = BpfManager::new();
    let first = xdp_program("only", 1, 1, false);
    mgr.add_filter_program(first, Ok(vec![]), true, Ok(3)).unwrap();

    let departing = mgr.programs.remove(3).unwrap();
    match mgr.begin_remove_multi_attach(&departing).unwrap() {
        RemoveMultiAction::Teardown => {}
        RemoveMultiAction::Rebuild { .. } => panic!("expected a teardown"),
    }
    assert_eq!(mgr.dispatchers.attached_programs(&DispatcherId::Xdp(1)), 0);
}

#[test]
fn removing_one_of_two_renumbers_the_rest() {
    let mut mgr = BpfManager::new();
    mgr.add_filter_program(xdp_program("alpha", 10, 1, false), Ok(vec![]), true, Ok(3))
        .unwrap();
    mgr.add_filter_program(xdp_program("beta", 20, 1, false), Ok(vec![]), true, Ok(4))
        .unwrap();

    let departing = mgr.programs.remove(3).unwrap();
    match mgr.begin_remove_multi_attach(&departing).unwrap() {
        RemoveMultiAction::Rebuild { order, next_revision } => {
            assert_eq!(order.len(), 1);
            assert_eq!(order[0].target, SlotTarget::Existing(4));
            assert_eq!(next_revision, 3);
            let d = bpfman::dispatcher::Dispatcher {
                kind: ProgramType::Xdp,
                if_index: 1,
                if_name: String::from("lo"),
                direction: None,
                revision: next_revision,
                num_extensions: order.len(),
            };
            mgr.commit_rebuilt_dispatcher(DispatcherId::Xdp(1), d);
        }
        RemoveMultiAction::Teardown => panic!("expected a rebuild"),
    }
    assert_eq!(mgr.programs.get(4).unwrap().position(), Some(0));
    assert_eq!(mgr.dispatchers.attached_programs(&DispatcherId::Xdp(1)), 1);
}

#[test]
fn helper_argv_is_exact() {
    let args = container_attach_args(
        &Some(String::from("malloc")),
        &String::from("/usr/lib/libc.so.6"),
        4096,
        true,
        &Some(1234),
        5678,
        &String::from("/run/bpfd/fs/prog_42"),
    );
    assert_eq!(
        args,
        vec![
            "uprobe",
            "--program-pin-path",
            "/run/bpfd/fs/prog_42",
            "--offset",
            "4096",
            "--target",
            "/usr/lib/libc.so.6",
            "--container-pid",
            "5678",
            "--fn-name",
            "malloc",
            "--retprobe",
            "--pid",
            "1234",
        ]
    );
    let minimal = container_attach_args(
        &None,
        &String::from("/bin/app"),
        0,
        false,
        &None,
        -1,
        &String::from("/run/bpfd/fs/prog_7"),
    );
    assert_eq!(
        minimal,
        vec![
            "uprobe",
            "--program-pin-path",
            "/run/bpfd/fs/prog_7",
            "--offset",
            "0",
            "--target",
            "/bin/app",
            "--container-pid",
            "-1",
        ]
    );
}

#[test]
fn pin_paths_and_dispatcher_entries() {
    assert_eq!(bpfman::manager::prog_pin_path(52), "/run/bpfd/fs/prog_52");
    assert_eq!(
        bpfman::manager::prog_link_pin_path(52),
        "/run/bpfd/fs/prog_52_link"
    );
    assert_eq!(bpfman::manager::parse_dispatcher_entry("2_7"), Some((2, 7)));
    assert_eq!(bpfman::manager::parse_dispatcher_entry("2_7_9"), None);
    assert_eq!(bpfman::manager::parse_dispatcher_entry("lo"), None);
    assert_eq!(bpfman::manager::parse_dispatcher_entry("2_x"), None);
}

#[test]
fn integer_parse_errors_carry_the_value() {
    match ProceedOn::try_from_int(7) {
        Err(ParseError::InvalidProceedOn { proceedon }) => assert_eq!(proceedon, "7"),
        _ => panic!("expected an invalid proceed-on error"),
    }
    match ProgramType::try_from_int(-3) {
        Err(ParseError::InvalidProgramType { program }) => assert_eq!(program, "-3"),
        _ => panic!("expected an invalid program type error"),
    }
    match ImagePullPolicy::try_from_int(9) {
        Err(ParseError::InvalidProgramType { program }) => assert_eq!(program, "9"),
        _ => panic!("expected an invalid pull policy error"),
    }
}

#[test]
fn restart_reestablishes_hooks() {
    let mut mgr = BpfManager::new();
    // Nothing recorded for the hook: nothing to do.
    match mgr
        .begin_rebuild_multiattach(DispatcherId::Xdp(1), ProgramType::Xdp, 1, None)
        .unwrap()
    {
        RebuildMultiAction::NoDispatcher => {}
        _ => panic!("expected nothing to do"),
    }

    // A recorded dispatcher with no surviving programs is torn down.
    let stale = Dispatcher {
        kind: ProgramType::Xdp,
        if_index: 1,
        if_name: String::from("lo"),
        direction: None,
        revision: 4,
        num_extensions: 1,
    };
    mgr.dispatchers.insert(DispatcherId::Xdp(1), stale);
    match mgr
        .begin_rebuild_multiattach(DispatcherId::Xdp(1), ProgramType::Xdp, 1, None)
        .unwrap()
    {
        RebuildMultiAction::Teardown => {}
        _ => panic!("expected a teardown"),
    }
    assert_eq!(mgr.dispatchers.attached_programs(&DispatcherId::Xdp(1)), 0);

    // With programs present, the hook is renumbered at the next revision.
    mgr.programs.insert(2, xdp_program("beta", 20, 1, true));
    mgr.programs.insert(3, xdp_program("alpha", 10, 1, true));
    let recorded = Dispatcher {
        kind: ProgramType::Xdp,
        if_index: 1,
        if_name: String::from("lo"),
        direction: None,
        revision: 4,
        num_extensions: 2,
    };
    mgr.dispatchers.insert(DispatcherId::Xdp(1), recorded);
    match mgr
        .begin_rebuild_multiattach(DispatcherId::Xdp(1), ProgramType::Xdp, 1, None)
        .unwrap()
    {
        RebuildMultiAction::Rebuild { order, next_revision } => {
            assert_eq!(next_revision, 5);
            assert_eq!(order.len(), 2);
            assert_eq!(order[0].target, SlotTarget::Existing(3));
            assert_eq!(order[1].target, SlotTarget::Existing(2));
        }
        _ => panic!("expected a rebuild"),
    }
    assert_eq!(mgr.programs.get(3).unwrap().position(), Some(0));
    assert_eq!(mgr.programs.get(2).unwrap().position(), Some(1));
}
