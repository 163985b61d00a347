use yarapi::batch::ExeCommand;
use yarapi::codec::{encode_message, MESSAGE_END, MESSAGE_START};
use yarapi::package::{Image, Version};
use yarapi::requestor::{
    Command, CommandList, Constraints, ImageSpec, Location, Requestor, WasmRuntime,
};
use yarapi::streaming::ForwardStd;
use yarapi::transfer::{container_url, transfer_command};

#[test]
fn requestor_builder_accumulates_configuration() {
    let image = Image::Wasm(Version { major: 0, minor: 2, patch: 0 });
    let tasks = vec![CommandList::new(vec![
        Command::Deploy,
        Command::Start,
        Command::Run(vec!["main".to_string()]),
    ])];
    let requestor = Requestor::new(
        "test-node".to_string(),
        image,
        Location::URL("gftp:dead/beef".to_string()),
    )
    .with_timeout(300)
    .with_max_budget_gnt(5)
    .with_constraints(Constraints::single("golem.node.debug.subnet=devnet".to_string()))
    .with_tasks(tasks);

    assert_eq!(requestor.name, "test-node");
    assert_eq!(requestor.timeout_secs, 300);
    assert_eq!(requestor.budget, 5);
    assert_eq!(requestor.tasks.len(), 1);
    assert_eq!(requestor.tasks[0].0.len(), 3);
    assert_eq!(
        requestor.constraints.clauses,
        vec![
            "golem.com.pricing.model=linear".to_string(),
            "golem.node.debug.subnet=devnet".to_string(),
        ],
        "the default pricing clause stays, new clauses conjoin"
    );
}

#[test]
fn constraints_conjoin_in_order() {
    let c = Constraints::single("a=1".to_string())
        .and(Constraints::single("b=2".to_string()))
        .and(Constraints::new());
    assert_eq!(c.clauses, vec!["a=1".to_string(), "b=2".to_string()]);
    assert_eq!(c.expression(), "(&(a=1)(b=2))");
    assert_eq!(Constraints::new().expression(), "(&)");
}

#[test]
fn demand_carries_name_package_and_expiration() {
    let image = Image::GVMKit(Version { major: 0, minor: 1, patch: 0 });
    let requestor = Requestor::new(
        "node-name".to_string(),
        image,
        Location::File("image.zip".to_string()),
    );
    let descriptor =
        yarapi::package::task_package_descriptor("cafe", "gftp:dead/beef");
    assert_eq!(descriptor, "hash:sha3:cafe:gftp:dead/beef");
    let props = requestor.demand_properties(descriptor, 1_000_000);
    assert_eq!(props.node_name, "node-name");
    assert_eq!(props.task_package, "hash:sha3:cafe:gftp:dead/beef");
    assert_eq!(props.expiration_millis, 1_000_000 + 600_000);
}

#[test]
fn image_spec_defaults_to_first_wasi_generation() {
    let spec = ImageSpec::from_github("some/repo");
    assert_eq!(spec.runtime, WasmRuntime::Wasi(1));
    let spec = ImageSpec::from_url("http://example.com/image").runtime(WasmRuntime::Wasi(2));
    assert_eq!(spec.runtime, WasmRuntime::Wasi(2));
}

#[test]
fn transfers_address_the_container() {
    assert_eq!(container_url("/workdir/input"), "container:/workdir/input");
    match transfer_command("gftp:src", "container:/dst") {
        ExeCommand::Transfer { from, to } => {
            assert_eq!(from, "gftp:src");
            assert_eq!(to, "container:/dst");
        }
        _ => panic!("a transfer builds a transfer command"),
    }
}

#[test]
fn forward_std_carries_the_stream_unchanged() {
    let wrapped = ForwardStd::new(vec![1u8, 2, 3]);
    assert_eq!(wrapped.get_ref(), &vec![1u8, 2, 3]);
    assert_eq!(wrapped.into_inner(), vec![1u8, 2, 3]);
}

#[test]
fn encoded_messages_are_framed_by_the_control_bytes() {
    let framed = encode_message(&b"{}".to_vec());
    assert_eq!(framed, vec![MESSAGE_START, b'{', b'}', MESSAGE_END]);
    assert_eq!(MESSAGE_START, 0x02);
    assert_eq!(MESSAGE_END, 0x03);
}
