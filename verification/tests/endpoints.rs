use next_api::endpoint::{
    endpoint_server_changed_operation, endpoint_write_to_disk_operation, ChangeToken, Endpoint,
    EndpointOperation, Endpoints, ModuleGraph, ModuleRef, Modules, OperationKind, OperationOutput,
};
use next_api::reference::ResolvedEndpoint;
use next_api::written::{Runtime, ServerPath, WrittenEndpoint};
use std::cell::Cell;

/// An endpoint that counts how often it is asked to compute, and caches what
/// it wrote.
struct Probe {
    written: Cell<u32>,
    observed: Cell<u32>,
    server_epoch: Cell<u64>,
    client_epoch: Cell<u64>,
    cache: std::cell::RefCell<Option<WrittenEndpoint>>,
    broken: bool,
}

impl Probe {
    fn new() -> Probe {
        Probe {
            written: Cell::new(0),
            observed: Cell::new(0),
            server_epoch: Cell::new(0),
            client_epoch: Cell::new(0),
            cache: std::cell::RefCell::new(None),
            broken: false,
        }
    }
}

impl Endpoint for Probe {
    type Failure = String;

    fn write_to_disk(&self) -> Result<WrittenEndpoint, String> {
        if self.broken {
            return Err("cannot write".to_string());
        }
        if let Some(written) = self.cache.borrow().as_ref() {
            return Ok(written.clone());
        }
        self.written.set(self.written.get() + 1);
        let written = WrittenEndpoint::NodeJs {
            server_entry_path: "server/app/page.js".to_string(),
            server_paths: vec![ServerPath {
                path: "server/app/page.js".to_string(),
                content_hash: 42,
            }],
            client_paths: vec!["static/chunks/page.js".to_string()],
        };
        *self.cache.borrow_mut() = Some(written.clone());
        Ok(written)
    }

    fn server_changed(&self) -> Result<ChangeToken, String> {
        if self.broken {
            return Err("cannot tell".to_string());
        }
        self.observed.set(self.observed.get() + 1);
        Ok(ChangeToken { epoch: self.server_epoch.get() })
    }

    fn client_changed(&self) -> Result<ChangeToken, String> {
        Ok(ChangeToken { epoch: self.client_epoch.get() })
    }

    fn root_modules(&self) -> Result<Modules, String> {
        Ok(Modules(vec![ModuleRef { id: 1 }]))
    }
}

#[test]
fn operations_are_keyed_by_kind_and_endpoint() {
    let a = ResolvedEndpoint { id: 1 };
    let b = ResolvedEndpoint { id: 2 };
    assert_eq!(
        endpoint_write_to_disk_operation(a),
        EndpointOperation { kind: OperationKind::WriteToDisk, endpoint: a }
    );
    assert_eq!(
        endpoint_server_changed_operation(a),
        EndpointOperation { kind: OperationKind::ServerChanged, endpoint: a }
    );
    assert_eq!(endpoint_write_to_disk_operation(a), endpoint_write_to_disk_operation(a));
    assert_ne!(endpoint_write_to_disk_operation(a), endpoint_write_to_disk_operation(b));
    assert_ne!(endpoint_write_to_disk_operation(a), endpoint_server_changed_operation(a));
}

#[test]
fn running_write_to_disk_calls_that_method() {
    let probe = Probe::new();
    let operation = endpoint_write_to_disk_operation(ResolvedEndpoint { id: 1 });
    match operation.run(&probe) {
        Ok(OperationOutput::Written(written)) => {
            assert_eq!(written.runtime(), Runtime::NodeJs);
            assert_eq!(written.server_entry_path().unwrap(), "server/app/page.js");
        }
        _ => panic!("write_to_disk gives written output"),
    }
    assert_eq!(probe.written.get(), 1);
    assert_eq!(probe.observed.get(), 0);
}

#[test]
fn running_server_changed_calls_that_method_and_writes_nothing() {
    let probe = Probe::new();
    probe.server_epoch.set(9);
    let operation = endpoint_server_changed_operation(ResolvedEndpoint { id: 1 });
    match operation.run(&probe) {
        Ok(OperationOutput::ServerChanged(token)) => assert_eq!(token, ChangeToken { epoch: 9 }),
        _ => panic!("server_changed gives a change token"),
    }
    assert_eq!(probe.observed.get(), 1);
    assert_eq!(probe.written.get(), 0);
}

#[test]
fn a_failed_computation_is_handed_on_as_it_is() {
    let mut probe = Probe::new();
    probe.broken = true;
    let write = endpoint_write_to_disk_operation(ResolvedEndpoint { id: 1 });
    assert_eq!(write.run(&probe).err(), Some("cannot write".to_string()));
    let changed = endpoint_server_changed_operation(ResolvedEndpoint { id: 1 });
    assert_eq!(changed.run(&probe).err(), Some("cannot tell".to_string()));
}

#[test]
fn a_caching_endpoint_computes_once_for_two_runs() {
    let probe = Probe::new();
    let operation = endpoint_write_to_disk_operation(ResolvedEndpoint { id: 1 });
    let first = operation.run(&probe);
    let second = operation.run(&probe);
    match (first, second) {
        (Ok(OperationOutput::Written(a)), Ok(OperationOutput::Written(b))) => {
            assert_eq!(a.runtime(), b.runtime());
            assert_eq!(a.server_entry_path(), b.server_entry_path());
            assert_eq!(a.client_paths(), b.client_paths());
            assert_eq!(a.server_paths().len(), b.server_paths().len());
        }
        _ => panic!("both runs give written output"),
    }
    assert_eq!(probe.written.get(), 1);
}

#[test]
fn server_and_client_tokens_change_apart() {
    let probe = Probe::new();
    let server_before = probe.server_changed().unwrap();
    let client_before = probe.client_changed().unwrap();
    probe.client_epoch.set(1);
    assert_eq!(probe.server_changed().unwrap(), server_before);
    assert_ne!(probe.client_changed().unwrap(), client_before);
    let client_after = probe.client_changed().unwrap();
    probe.server_epoch.set(1);
    assert_ne!(probe.server_changed().unwrap(), server_before);
    assert_eq!(probe.client_changed().unwrap(), client_after);
}

#[test]
fn an_endpoint_has_no_additional_root_modules_by_default() {
    let probe = Probe::new();
    let graph = ModuleGraph { snapshot: 3 };
    let first = probe.additional_root_modules(&graph).unwrap();
    let second = probe.additional_root_modules(&graph).unwrap();
    assert!(first.0.is_empty());
    assert!(second.0.is_empty());
    assert_eq!(probe.root_modules().unwrap().0, vec![ModuleRef { id: 1 }]);
    assert!(Modules::empty().0.is_empty());
}

#[test]
fn endpoints_lists_canonical_references() {
    let list = Endpoints(vec![ResolvedEndpoint { id: 2 }, ResolvedEndpoint { id: 1 }]);
    assert_eq!(list.0, vec![ResolvedEndpoint { id: 2 }, ResolvedEndpoint { id: 1 }]);
}

#[test]
fn node_js_output_has_a_server_entry_path() {
    let written = WrittenEndpoint::NodeJs {
        server_entry_path: "server/pages/index.js".to_string(),
        server_paths: vec![
            ServerPath { path: "server/pages/index.js".to_string(), content_hash: 1 },
            ServerPath { path: "server/chunks/a.js".to_string(), content_hash: 2 },
        ],
        client_paths: vec!["static/a.js".to_string()],
    };
    assert_eq!(written.runtime(), Runtime::NodeJs);
    assert_eq!(written.server_entry_path(), Some(&"server/pages/index.js".to_string()));
    assert_eq!(written.server_paths().len(), 2);
    assert_eq!(written.server_paths()[1].path, "server/chunks/a.js");
    assert_eq!(written.server_paths()[1].content_hash, 2);
    assert_eq!(*written.client_paths(), vec!["static/a.js".to_string()]);
}

#[test]
fn edge_output_has_no_server_entry_path() {
    let written = WrittenEndpoint::Edge {
        server_paths: vec![ServerPath { path: "server/edge/a.js".to_string(), content_hash: 7 }],
        client_paths: Vec::new(),
    };
    assert_eq!(written.runtime(), Runtime::Edge);
    assert_eq!(written.server_entry_path(), None);
    assert_eq!(written.server_paths().len(), 1);
    assert_eq!(written.server_paths()[0].content_hash, 7);
    assert!(written.client_paths().is_empty());
}

#[test]
fn written_output_is_for_exactly_one_runtime() {
    let mut seed: u64 = 12345;
    for _ in 0..200 {
        seed = seed.wrapping_mul(6364136223846793005).wrapping_add(1442695040888963407);
        let n_server: usize = ((seed >> 33) % 4) as usize;
        let n_client: usize = ((seed >> 40) % 4) as usize;
        let server_paths: Vec<ServerPath> = (0..n_server)
            .map(|i| ServerPath { path: format!("s{}", i), content_hash: seed ^ (i as u64) })
            .collect();
        let client_paths: Vec<String> = (0..n_client).map(|i| format!("c{}", i)).collect();
        let written = if (seed >> 20) % 2 == 0 {
            WrittenEndpoint::NodeJs {
                server_entry_path: format!("entry{}", seed % 10),
                server_paths,
                client_paths,
            }
        } else {
            WrittenEndpoint::Edge { server_paths, client_paths }
        };
        let node = matches!(written, WrittenEndpoint::NodeJs { .. });
        let edge = matches!(written, WrittenEndpoint::Edge { .. });
        assert!(node != edge);
        assert_eq!(written.runtime() == Runtime::NodeJs, node);
        assert_eq!(written.runtime() == Runtime::Edge, edge);
        assert_eq!(written.server_entry_path().is_some(), node);
        assert_eq!(written.server_paths().len(), n_server);
        assert_eq!(written.client_paths().len(), n_client);
    }
}
