//! The deferred-mutation action log. While the tick engine iterates a
//! consistent snapshot of the entities it queues intents here, keyed by
//! entity id; a second pass applies them in enqueue order, so that no
//! decision of a tick can observe a mutation made in the same tick.

use vstd::prelude::*;

verus! {

use crate::state::entities::EntityState;
use crate::state::utils::Location;

/// One deferred intent against the entity it is queued under.
#[derive(Debug, Clone, Copy, PartialEq, Eq, Structural)]
pub enum Action {
    EntityStateChange { state: EntityState },
    Target { target_id: Option<u16> },
    Move { to: Location },
    Damage { amount: u16 },
}

/// The action log of one tick: `(entity id, action)` pairs in enqueue order.
pub struct Actions {
    pub all: Vec<(u16, Action)>,
}

/// The actions queued against one entity id, in enqueue order.
pub open spec fn actions_for(log: Seq<(u16, Action)>, id: u16) -> Seq<Action>
    decreases log.len(),
{
    if log.len() == 0 {
        Seq::empty()
    } else {
        let rest = actions_for(log.drop_last(), id);
        if log.last().0 == id {
            rest.push(log.last().1)
        } else {
            rest
        }
    }
}

impl Actions {
    /// An empty log.
    pub fn new() -> (r: Self)
        ensures
            r.all@ == Seq::<(u16, Action)>::empty(),
    {
        Actions { all: Vec::new() }
    }

    /// Queue an action against an entity id.
    pub fn add(&mut self, id: u16, action: Action)
        ensures
            final(self).all@ == old(self).all@.push((id, action)),
    {
        self.all.push((id, action));
    }

    /// The actions queued against `id`, in enqueue order, or `None` if there
    /// are none at all.
    pub fn get_actions_by_id(&self, id: &u16) -> (r: Option<Vec<Action>>)
        ensures
            r is None <==> actions_for(self.all@, *id).len() == 0,
            r is Some ==> r.unwrap()@ == actions_for(self.all@, *id),
    {
        let mut out: Vec<Action> = Vec::new();
        let mut i: usize = 0;
        while i < self.all.len()
            invariant
                i <= self.all.len(),
                out@ == actions_for(self.all@.take(i as int), *id),
            decreases self.all.len() - i,
        {
            let pair = self.all[i];
            proof {
                assert(self.all@.take(i + 1 as int).drop_last() =~= self.all@.take(i as int));
                assert(self.all@.take(i + 1 as int).last() == self.all@[i as int]);
            }
            if pair.0 == *id {
                out.push(pair.1);
            }
            i = i + 1;
        }
        proof {
            assert(self.all@.take(self.all@.len() as int) =~= self.all@);
        }
        if out.len() == 0 {
            None
        } else {
            Some(out)
        }
    }
}

} // verus!
