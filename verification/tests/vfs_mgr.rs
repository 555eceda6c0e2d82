use kiki::vfs_mgr::{
    transport_to_proto, BindError, PortSearch, TransportInfo, TransportReply, VfsManagerConfig,
};

fn tried(config: VfsManagerConfig) -> (Vec<u16>, BindError) {
    let mut search = PortSearch::new(config);
    let mut ports = Vec::new();
    while let Some(port) = search.next_port() {
        ports.push(port);
        search.refused(format!("port {port} in use"));
    }
    (ports, search.exhausted())
}

#[test]
fn ports_are_tried_in_order() {
    let (ports, error) = tried(VfsManagerConfig { min_nfs_port: 12000, max_nfs_port: 12003 });
    assert_eq!(ports, vec![12000, 12001, 12002, 12003]);
    assert_eq!(
        error.to_string(),
        "NFS bind exhausted port range 12000..=12003: port 12003 in use"
    );
    let (ports, _) = tried(VfsManagerConfig { min_nfs_port: 65535, max_nfs_port: 65535 });
    assert_eq!(ports, vec![65535]);
}

#[test]
fn empty_ranges_are_reported() {
    let (ports, error) = tried(VfsManagerConfig { min_nfs_port: 5, max_nfs_port: 4 });
    assert!(ports.is_empty());
    assert_eq!(
        error.to_string(),
        "NFS bind exhausted port range 5..=4: empty NFS port range"
    );
}

#[test]
fn every_port_can_be_tried() {
    let (ports, _) = tried(VfsManagerConfig { min_nfs_port: 0, max_nfs_port: 65535 });
    assert_eq!(ports.len(), 65536);
}

#[test]
fn bind_errors_and_transports() {
    assert_eq!(BindError::ManagerGone.to_string(), "VFS manager has shut down");
    assert_eq!(
        BindError::FuseMount("no fusermount3".to_owned()).to_string(),
        "FUSE mount failed: no fusermount3"
    );
    assert_eq!(
        BindError::UnsupportedPlatform.to_string(),
        "no VFS transport available on this platform"
    );
    assert_eq!(transport_to_proto(TransportInfo::Fuse), TransportReply::Fuse);
    assert_eq!(
        transport_to_proto(TransportInfo::Nfs { port: 2049 }),
        TransportReply::Nfs { port: 2049 }
    );
}
