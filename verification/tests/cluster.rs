use hydrogen::cluster::ClusterConfig;

#[test]
fn single_node_descriptor() {
    let config = ClusterConfig::single_node("node-1".to_string(), "127.0.0.1:8080".to_string());
    assert_eq!(config.cluster_validation, 0);
    assert_eq!(config.nodes.len(), 1);
    assert_eq!(config.nodes[0].node_id, "node-1");
    assert_eq!(config.nodes[0].node_validation, 0);
    assert_eq!(config.nodes[0].address, "127.0.0.1:8080");
    assert_eq!(config.nodes[0].slots, [0, 16383]);
}
