//! A whole cluster in one place: one instance of a data type per member.
use vstd::prelude::*;
use std::collections::HashMap;
use std::marker::PhantomData;
use crate::{IntMultCrdtValue, IntMultOpsValue, NodeType};
use crate::add_mult_crdt::AddMult;
use crate::constants::{Config, copy_members};
use crate::crdt::{CRDT, CrdtInstance, CrdtType, initial_instance};
use crate::vector_clock::{VectorClockError, lemma_take_push_set};

verus! {

/// The members of a cluster and, once populated, the instance of each.
#[derive(Debug)]
pub struct Node<CrdtValue, OpsValue: Copy + PartialEq, State> {
    pub crdt_instance: CrdtInstance,
    pub node_list: Vec<NodeType>,
    /// After how many peer updates an instance tells its clock.
    pub max_msg_count_vc: u16,
    /// After how many messages an instance sweeps its buffer.
    pub max_msg_count_cs: u16,
    pub crdt_list: HashMap<NodeType, CRDT<CrdtValue, OpsValue, State>>,
    pub state: PhantomData<State>,
}

impl<CrdtValue, OpsValue: Copy + PartialEq, State> Node<CrdtValue, OpsValue, State> {
    /// The cluster of `config`, with no instance yet.
    pub fn new(config: &Config) -> (r: Self)
        ensures
            r.crdt_instance == (CrdtInstance {
                instance_node_id: 0,
                instance_num: 0,
                instance_type: CrdtType::AddMultCrdt,
            }),
            r.node_list@ == config.node_list@,
            r.max_msg_count_vc == config.max_msg_count_vc,
            r.max_msg_count_cs == config.max_msg_count_cs,
            r.crdt_list@ == Map::<NodeType, CRDT<CrdtValue, OpsValue, State>>::empty(),
    {
        let crdt_instance = CrdtInstance::new(0, 0, CrdtType::AddMultCrdt);
        let node_list = config.members();
        let crdt_list: HashMap<NodeType, CRDT<CrdtValue, OpsValue, State>> = HashMap::new();
        Self {
            crdt_instance,
            node_list,
            max_msg_count_vc: config.max_msg_count_vc,
            max_msg_count_cs: config.max_msg_count_cs,
            crdt_list,
            state: PhantomData,
        }
    }
}

impl Node<IntMultCrdtValue, IntMultOpsValue, AddMult> {
    /// Gives every member a fresh multiplicative counter at zero, in place
    /// of what it had.
    pub fn populate(&mut self) -> (r: Result<(), VectorClockError>)
        ensures
            r is Ok,
            final(self).crdt_instance == old(self).crdt_instance,
            final(self).node_list == old(self).node_list,
            final(self).max_msg_count_vc == old(self).max_msg_count_vc,
            final(self).max_msg_count_cs == old(self).max_msg_count_cs,
            forall|n: NodeType|
                final(self).crdt_list@.contains_key(n) <==> (old(self).crdt_list@.contains_key(n)
                    || old(self).node_list@.contains(n)),
            forall|n: NodeType|
                old(self).node_list@.contains(n) ==> (#[trigger] final(self).crdt_list@[n])@
                    == initial_instance::<IntMultCrdtValue, IntMultOpsValue>(
                    n,
                    old(self).node_list@.to_set(),
                    0,
                    old(self).max_msg_count_vc,
                    old(self).max_msg_count_cs,
                ),
            forall|n: NodeType|
                old(self).crdt_list@.contains_key(n) && !old(self).node_list@.contains(n)
                    ==> final(self).crdt_list@[n] == old(self).crdt_list@[n],
    {
        broadcast use vstd::std_specs::hash::group_hash_axioms;

        let config = Config::new(
            copy_members(&self.node_list),
            self.max_msg_count_vc,
            self.max_msg_count_cs,
        );
        let mut i: usize = 0;
        while i < self.node_list.len()
            invariant
                i <= self.node_list.len(),
                self.crdt_instance == old(self).crdt_instance,
                self.node_list == old(self).node_list,
                self.max_msg_count_vc == old(self).max_msg_count_vc,
                self.max_msg_count_cs == old(self).max_msg_count_cs,
                config.node_list@ == self.node_list@,
                config.max_msg_count_vc == self.max_msg_count_vc,
                config.max_msg_count_cs == self.max_msg_count_cs,
                forall|n: NodeType|
                    self.crdt_list@.contains_key(n) <==> (old(self).crdt_list@.contains_key(n)
                        || self.node_list@.take(i as int).contains(n)),
                forall|n: NodeType|
                    self.node_list@.take(i as int).contains(n) ==> (
                    #[trigger] self.crdt_list@[n])@ == initial_instance::<
                        IntMultCrdtValue,
                        IntMultOpsValue,
                    >(n, self.node_list@.to_set(), 0, self.max_msg_count_vc, self.max_msg_count_cs),
                forall|n: NodeType|
                    old(self).crdt_list@.contains_key(n) && !self.node_list@.take(
                        i as int,
                    ).contains(n) ==> self.crdt_list@[n] == old(self).crdt_list@[n],
            decreases self.node_list.len() - i,
        {
            let n = self.node_list[i];
            proof {
                lemma_take_push_set(self.node_list@, i as int);
                assert(self.node_list@.contains(n));
            }
            let cins: CRDT<IntMultCrdtValue, IntMultOpsValue, AddMult> = match CRDT::new(
                n,
                0,
                &config,
            ) {
                Ok(c) => c,
                Err(e) => {
                    return Err(e);
                },
            };
            self.crdt_list.insert(n, cins);
            i += 1;
        }
        proof {
            assert(self.node_list@.take(self.node_list@.len() as int) == self.node_list@);
        }
        Ok(())
    }

    /// The identity under which the cluster's instances go.
    pub fn get_crdt_instance(&self) -> (r: CrdtInstance)
        ensures
            r == self.crdt_instance,
    {
        self.crdt_instance
    }

    /// The instance of the member `node`, which must have one.
    pub fn get_crdt(&mut self, node: u16) -> (r: &CRDT<IntMultCrdtValue, IntMultOpsValue, AddMult>)
        requires
            old(self).crdt_list@.contains_key(node),
        ensures
            *r == old(self).crdt_list@[node],
    {
        broadcast use vstd::std_specs::hash::group_hash_axioms;

        self.crdt_list.get(&node).unwrap()
    }

    /// The number of members, as far as sixteen bits hold it.
    pub fn get_crdt_len(&self) -> (n: u16)
        ensures
            n == self.node_list@.len() % 0x1_0000,
    {
        (self.node_list.len() % 0x1_0000) as u16
    }
}

} // verus!
