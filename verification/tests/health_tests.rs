use cognitora::health::{
    after_keep_alive, emit_mode, lease_ttl_secs, node_address, pipeline_worker_records, EmitMode,
    KeepAliveReply, LeaseNext, PipelineWorker,
};

#[test]
fn heartbeat_backend_and_lease() {
    assert_eq!(emit_mode(true, 3), EmitMode::Gossip);
    assert_eq!(emit_mode(false, 0), EmitMode::SingleNode);
    assert_eq!(emit_mode(false, 2), EmitMode::Etcd);
    assert_eq!(lease_ttl_secs(), 15);
}

#[test]
fn node_address_follows_mtls() {
    assert_eq!(node_address(true, "10.0.0.1:7071"), "https://10.0.0.1:7071");
    assert_eq!(node_address(false, "10.0.0.1:7071"), "http://10.0.0.1:7071");
}

#[test]
fn only_spawned_workers_are_registered() {
    let workers = vec![
        PipelineWorker { spawn: true, listen: "127.0.0.1:9101".into() },
        PipelineWorker { spawn: false, listen: "10.0.0.9:9101".into() },
        PipelineWorker { spawn: true, listen: "127.0.0.1:9102".into() },
    ];
    let r = pipeline_worker_records("gpu-1", &workers);
    assert_eq!(r.len(), 2);
    assert_eq!((r[0].index, r[0].node_id.as_str(), r[0].address.as_str()), (0, "gpu-1-pipeline-worker-0", "http://127.0.0.1:9101"));
    assert_eq!((r[1].index, r[1].node_id.as_str(), r[1].address.as_str()), (2, "gpu-1-pipeline-worker-2", "http://127.0.0.1:9102"));
}

#[test]
fn keep_alive_reply_decides_the_lease_loop() {
    assert_eq!(after_keep_alive(KeepAliveReply::Reply), LeaseNext::Continue);
    assert_eq!(after_keep_alive(KeepAliveReply::TimedOut), LeaseNext::Continue);
    assert_eq!(after_keep_alive(KeepAliveReply::Closed), LeaseNext::End);
    assert_eq!(after_keep_alive(KeepAliveReply::Failed), LeaseNext::Fail);
}
