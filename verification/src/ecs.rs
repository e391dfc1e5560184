use vstd::prelude::*;

verus! {

/// The handle of an entity.
#[derive(Clone, Copy, PartialEq, Eq, Hash, Debug, Structural)]
pub struct Entity {
    id: u32,
}

impl View for Entity {
    type V = u32;

    closed spec fn view(&self) -> u32 {
        self.id
    }
}

impl Entity {
    pub fn new(id: u32) -> (e: Self)
        ensures
            e@ == id,
    {
        Entity { id }
    }

    /// The entity's number.
    pub fn raw(&self) -> (id: u32)
        ensures
            id == self@,
    {
        self.id
    }
}

/// Hands out entity handles, each number once, counting up from 0.
pub struct EntityIds {
    next_id: u32,
}

impl View for EntityIds {
    type V = u32;

    /// The number of the next entity handed out.
    closed spec fn view(&self) -> u32 {
        self.next_id
    }
}

impl Default for EntityIds {
    fn default() -> (ids: Self)
        ensures
            ids@ == 0,
    {
        EntityIds { next_id: 0 }
    }
}

impl EntityIds {
    /// A new entity: the next number, which is then used up.
    pub fn spawn(&mut self) -> (e: Entity)
        requires
            old(self)@ < u32::MAX,
        ensures
            e@ == old(self)@,
            final(self)@ == old(self)@ + 1,
    {
        let id = Entity::new(self.next_id);
        self.next_id = self.next_id + 1;
        id
    }

    /// The number of the next entity, for a caller that checks that numbers remain.
    pub fn peek(&self) -> (n: u32)
        ensures
            n == self@,
    {
        self.next_id
    }
}

} // verus!
