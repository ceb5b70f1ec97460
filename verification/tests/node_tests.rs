use ops_crdt_rust::add_mult_crdt::AddMult;
use ops_crdt_rust::constants::Config;
use ops_crdt_rust::crdt::CrdtType;
use ops_crdt_rust::edflag_crdt::EDFlag;
use ops_crdt_rust::node_instance::NodeInstance;
use ops_crdt_rust::node_state::Node;
use ops_crdt_rust::vector_clock::VectorClockError;

#[test]
fn node_instance_has_one_instance_of_each_kind_at_its_start() {
    let ni = NodeInstance::new(1, &Config::new(vec![0, 1, 2], 3, 4)).unwrap();
    assert_eq!(ni.node, 1);
    assert_eq!(*ni.add_mult_crdt.query(), 0);
    assert!(*ni.ewflag_crdt.query() == EDFlag::Enabled);
    assert!(*ni.dwflag_crdt.query() == EDFlag::Disabled);
    assert!(ni.awset_crdt.query().is_empty());
    assert!(ni.rwset_crdt.query().is_empty());
    assert_eq!((ni.pncnt_crdt.query().pcount, ni.pncnt_crdt.query().ncount), (0, 0));
    assert_eq!(ni.add_mult_crdt.get_node(), 1);
    assert_eq!(ni.pncnt_crdt.get_node(), 1);
    assert_eq!(ni.awset_crdt.max_msg_count_vc, 3);
    assert_eq!(ni.rwset_crdt.max_msg_count_cs, 4);
}

#[test]
fn node_instance_refuses_a_node_outside_the_cluster() {
    assert!(matches!(
        NodeInstance::new(3, &Config::new(vec![0, 1, 2], 3, 4)),
        Err(VectorClockError::InconsistentInputTRBC(3, _))
    ));
}

#[test]
fn cluster_is_populated_with_one_counter_per_member() {
    let mut cluster: Node<i64, i64, AddMult> = Node::new(&Config::new(vec![0, 1, 2], 3, 4));
    assert_eq!(cluster.crdt_list.len(), 0);
    assert_eq!(cluster.get_crdt_len(), 3);
    assert_eq!(cluster.get_crdt_instance().instance_type, CrdtType::AddMultCrdt);
    assert_eq!(cluster.get_crdt_instance().instance_node_id, 0);
    assert_eq!(cluster.get_crdt_instance().instance_num, 0);
    cluster.populate().unwrap();
    assert_eq!(cluster.crdt_list.len(), 3);
    for node in [0u16, 1, 2] {
        let c = cluster.get_crdt(node);
        assert_eq!(c.get_node(), node);
        assert_eq!(*c.query(), 0);
        assert_eq!((c.max_msg_count_vc, c.max_msg_count_cs), (3, 4));
    }
}
