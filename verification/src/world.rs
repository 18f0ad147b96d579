//! The entities of the game and the arena that holds them.

use crate::direction::Direction;
use crate::position::Position;
use vstd::prelude::*;

verus! {

/// The screens of the application.
#[derive(Clone, Copy, Debug, PartialEq, Eq, Structural)]
pub enum GameState {
    Splash,
    Menu,
    Game,
}

/// Marks the entity that the keyboard steers.
#[derive(Clone, Copy, Debug, PartialEq, Eq, Structural)]
pub struct Player {}

/// Marks an enemy, which keeps the direction that it was created with.
#[derive(Clone, Copy, Debug, PartialEq, Eq, Structural)]
pub struct Enemy {
    pub direction: Direction,
}

/// What an entity is.
#[derive(Clone, Copy, Debug, PartialEq, Eq, Structural)]
pub enum Role {
    Camera,
    Player(Player),
    Enemy(Enemy),
}

/// The roles, without what they carry.
#[derive(Clone, Copy, Debug, PartialEq, Eq, Structural)]
pub enum Kind {
    Camera,
    Player,
    Enemy,
}

/// An entity: where it is, what it is, and the screen that owns it, if any.
#[derive(Clone, Copy, Debug, PartialEq, Eq, Structural)]
pub struct Entity {
    pub position: Position,
    pub role: Role,
    pub screen: Option<GameState>,
}

impl Role {
    pub open spec fn spec_kind(&self) -> Kind {
        match self {
            Role::Camera => Kind::Camera,
            Role::Player(_) => Kind::Player,
            Role::Enemy(_) => Kind::Enemy,
        }
    }

    /// The role without what it carries.
    #[verifier::when_used_as_spec(spec_kind)]
    pub fn kind(&self) -> (k: Kind)
        ensures
            k == self.spec_kind(),
    {
        match self {
            Role::Camera => Kind::Camera,
            Role::Player(_) => Kind::Player,
            Role::Enemy(_) => Kind::Enemy,
        }
    }
}

/// The slot holds an entity of the given kind.
pub open spec fn holds(slot: Option<Entity>, kind: Kind) -> bool {
    slot matches Some(entity) && entity.role.kind() == kind
}

/// Slot `i` holds an entity of the given kind, and no other slot does.
pub open spec fn is_single(slots: Seq<Option<Entity>>, kind: Kind, i: int) -> bool {
    &&& 0 <= i < slots.len()
    &&& holds(slots[i], kind)
    &&& forall|j: int| 0 <= j < slots.len() && j != i ==> !holds(#[trigger] slots[j], kind)
}

/// The slot of the one entity of the given kind. Nothing where there is no such
/// entity, and nothing where there are several.
pub open spec fn single(slots: Seq<Option<Entity>>, kind: Kind) -> Option<int> {
    if exists|i: int| is_single(slots, kind, i) {
        Some(choose|i: int| is_single(slots, kind, i))
    } else {
        None
    }
}

/// Where one slot alone holds the kind, `single` names that slot.
pub proof fn lemma_single(slots: Seq<Option<Entity>>, kind: Kind, i: int)
    requires
        is_single(slots, kind, i),
    ensures
        single(slots, kind) == Some(i),
{
    let chosen = choose|k: int| is_single(slots, kind, k);
    assert(is_single(slots, kind, chosen));
    if chosen != i {
        assert(!holds(slots[i], kind));
    }
}

/// The slot holds an entity that `screen` owns.
pub open spec fn belongs_to(slot: Option<Entity>, screen: GameState) -> bool {
    slot matches Some(entity) && entity.screen == Some(screen)
}

/// The slot holds an entity of the given kind that `screen` owns.
pub open spec fn is_member(slot: Option<Entity>, kind: Kind, screen: GameState) -> bool {
    slot matches Some(entity) && entity.role.kind() == kind && entity.screen == Some(screen)
}

/// The slot after the entities of `screen` are removed.
pub open spec fn without_screen(slot: Option<Entity>, screen: GameState) -> Option<Entity> {
    if belongs_to(slot, screen) {
        None
    } else {
        slot
    }
}

/// The slots after the entities of `screen` are removed.
pub open spec fn despawned(slots: Seq<Option<Entity>>, screen: GameState) -> Seq<Option<Entity>> {
    Seq::new(slots.len(), |i: int| without_screen(slots[i], screen))
}

/// The number of entities of the given kind that `screen` owns.
pub open spec fn census(slots: Seq<Option<Entity>>, kind: Kind, screen: GameState) -> nat
    decreases slots.len(),
{
    if slots.len() == 0 {
        0
    } else {
        census(slots.drop_last(), kind, screen) + if is_member(slots.last(), kind, screen) {
            1nat
        } else {
            0nat
        }
    }
}

/// One more slot counts one more where it holds a member, and else nothing.
pub proof fn lemma_census_push(
    slots: Seq<Option<Entity>>,
    slot: Option<Entity>,
    kind: Kind,
    screen: GameState,
)
    ensures
        census(slots.push(slot), kind, screen) == census(slots, kind, screen) + if is_member(
            slot,
            kind,
            screen,
        ) {
            1nat
        } else {
            0nat
        },
{
    assert(slots.push(slot).drop_last() =~= slots);
}

/// Where no slot holds a member, the count is zero.
pub proof fn lemma_census_none(slots: Seq<Option<Entity>>, kind: Kind, screen: GameState)
    requires
        forall|i: int| 0 <= i < slots.len() ==> !is_member(#[trigger] slots[i], kind, screen),
    ensures
        census(slots, kind, screen) == 0,
    decreases slots.len(),
{
    if slots.len() > 0 {
        lemma_census_none(slots.drop_last(), kind, screen);
    }
}

/// The slots behind the first `n` count by themselves: each member among them
/// counts one.
pub proof fn lemma_census_tail(
    slots: Seq<Option<Entity>>,
    n: int,
    kind: Kind,
    screen: GameState,
)
    requires
        0 <= n <= slots.len(),
    ensures
        (forall|i: int| n <= i < slots.len() ==> is_member(#[trigger] slots[i], kind, screen))
            ==> census(slots, kind, screen) == census(slots.take(n), kind, screen) + slots.len()
            - n,
        (forall|i: int| n <= i < slots.len() ==> !is_member(#[trigger] slots[i], kind, screen))
            ==> census(slots, kind, screen) == census(slots.take(n), kind, screen),
    decreases slots.len() - n,
{
    if n == slots.len() {
        assert(slots.take(n) =~= slots);
    } else {
        let shorter = slots.drop_last();
        lemma_census_tail(shorter, n, kind, screen);
        assert(shorter.take(n) =~= slots.take(n));
        assert forall|i: int| n <= i < shorter.len() implies shorter[i] == slots[i] by {}
        if forall|i: int| n <= i < slots.len() ==> is_member(#[trigger] slots[i], kind, screen) {
            assert forall|i: int| n <= i < shorter.len() implies is_member(
                #[trigger] shorter[i],
                kind,
                screen,
            ) by {
                assert(shorter[i] == slots[i]);
            }
            assert(is_member(slots[slots.len() - 1], kind, screen));
        }
        if forall|i: int| n <= i < slots.len() ==> !is_member(#[trigger] slots[i], kind, screen) {
            assert forall|i: int| n <= i < shorter.len() implies !is_member(
                #[trigger] shorter[i],
                kind,
                screen,
            ) by {
                assert(shorter[i] == slots[i]);
            }
            assert(!is_member(slots[slots.len() - 1], kind, screen));
        }
    }
}

/// After the entities of a screen are removed, none that the screen owns is left,
/// and every other slot is as it was.
pub proof fn lemma_despawned(slots: Seq<Option<Entity>>, screen: GameState)
    ensures
        despawned(slots, screen).len() == slots.len(),
        forall|i: int|
            0 <= i < slots.len() ==> !belongs_to(#[trigger] despawned(slots, screen)[i], screen),
        forall|i: int|
            0 <= i < slots.len() && !belongs_to(slots[i], screen) ==> #[trigger] despawned(
                slots,
                screen,
            )[i] == slots[i],
        forall|kind: Kind| #[trigger] census(despawned(slots, screen), kind, screen) == 0,
        forall|kind: Kind, other: GameState|
            other != screen ==> #[trigger] census(despawned(slots, screen), kind, other) == census(
                slots,
                kind,
                other,
            ),
{
    let out = despawned(slots, screen);
    assert forall|kind: Kind| #[trigger] census(out, kind, screen) == 0 by {
        lemma_census_none(out, kind, screen);
    }
    assert forall|kind: Kind, other: GameState| other != screen implies #[trigger] census(
        out,
        kind,
        other,
    ) == census(slots, kind, other) by {
        lemma_census_same(slots, out, kind, other);
    }
}

/// Two rows of slots with the same members at the same places count the same.
pub proof fn lemma_census_same(
    a: Seq<Option<Entity>>,
    b: Seq<Option<Entity>>,
    kind: Kind,
    screen: GameState,
)
    requires
        a.len() == b.len(),
        forall|i: int|
            0 <= i < a.len() ==> is_member(#[trigger] a[i], kind, screen) == is_member(
                b[i],
                kind,
                screen,
            ),
    ensures
        census(a, kind, screen) == census(b, kind, screen),
    decreases a.len(),
{
    if a.len() > 0 {
        lemma_census_same(a.drop_last(), b.drop_last(), kind, screen);
    }
}

/// An arena of entities. A handle is the index of a slot; it stays valid, and keeps
/// naming the same slot, for as long as the world lives. Removing an entity empties
/// its slot.
pub struct World {
    slots: Vec<Option<Entity>>,
}

impl View for World {
    type V = Seq<Option<Entity>>;

    closed spec fn view(&self) -> Seq<Option<Entity>> {
        self.slots@
    }
}

impl World {
    /// A world without entities.
    pub fn new() -> (world: World)
        ensures
            world@ == Seq::<Option<Entity>>::empty(),
    {
        World { slots: Vec::new() }
    }

    /// The number of slots, empty ones included.
    pub fn len(&self) -> (n: usize)
        ensures
            n == self@.len(),
    {
        self.slots.len()
    }

    /// The entity that `handle` names, if the slot exists and is not empty.
    pub fn get(&self, handle: usize) -> (slot: Option<Entity>)
        ensures
            slot == if handle < self@.len() {
                self@[handle as int]
            } else {
                None
            },
    {
        if handle < self.slots.len() {
            self.slots[handle]
        } else {
            None
        }
    }

    /// Adds an entity in a new slot and returns its handle.
    pub fn spawn(&mut self, entity: Entity) -> (handle: usize)
        ensures
            final(self)@ == old(self)@.push(Some(entity)),
            handle == old(self)@.len(),
    {
        let handle: usize = self.slots.len();
        self.slots.push(Some(entity));
        handle
    }

    /// Puts `slot` in the place that `handle` names.
    pub fn set(&mut self, handle: usize, slot: Option<Entity>)
        requires
            handle < old(self)@.len(),
        ensures
            final(self)@ == old(self)@.update(handle as int, slot),
    {
        self.slots.set(handle, slot);
    }

    /// The handle of the one entity of the given kind. Nothing where there is no
    /// such entity, and nothing where there are several.
    pub fn single(&self, kind: Kind) -> (found: Option<usize>)
        ensures
            match found {
                Some(handle) => single(self@, kind) == Some(handle as int),
                None => single(self@, kind) is None,
            },
    {
        let n: usize = self.slots.len();
        let mut seen: Option<usize> = None;
        let mut many: bool = false;
        let ghost mut first: int = 0;
        let ghost mut second: int = 0;
        let mut i: usize = 0;
        while i < n
            invariant
                i <= n,
                n == self.slots@.len(),
                !many && seen is None ==> forall|j: int|
                    0 <= j < i ==> !holds(#[trigger] self.slots@[j], kind),
                !many ==> (seen matches Some(f) ==> f < i && holds(self.slots@[f as int], kind)
                    && forall|j: int|
                    0 <= j < i && j != f ==> !holds(#[trigger] self.slots@[j], kind)),
                many ==> 0 <= first < second < i && holds(self.slots@[first], kind) && holds(
                    self.slots@[second],
                    kind,
                ),
            decreases n - i,
        {
            let here: bool = match self.slots[i] {
                Some(entity) => entity.role.kind() == kind,
                None => false,
            };
            if here && !many {
                match seen {
                    Some(f) => {
                        many = true;
                        proof {
                            first = f as int;
                            second = i as int;
                        }
                    },
                    None => {
                        seen = Some(i);
                    },
                }
            }
            i = i + 1;
        }
        if many {
            proof {
                assert forall|k: int| !is_single(self@, kind, k) by {
                    if k == first {
                        assert(holds(self@[second], kind));
                    } else {
                        assert(holds(self@[first], kind));
                    }
                }
            }
            None
        } else {
            proof {
                match seen {
                    Some(f) => {
                        assert(is_single(self@, kind, f as int));
                        lemma_single(self@, kind, f as int);
                    },
                    None => {
                        assert forall|k: int| !is_single(self@, kind, k) by {
                            if 0 <= k < self@.len() {
                                assert(!holds(self@[k], kind));
                            }
                        }
                    },
                }
            }
            seen
        }
    }

    /// Removes every entity that `screen` owns, and no other.
    pub fn despawn_screen(&mut self, screen: GameState)
        ensures
            final(self)@ == despawned(old(self)@, screen),
    {
        let n: usize = self.slots.len();
        let mut i: usize = 0;
        while i < n
            invariant
                i <= n,
                n == self.slots@.len(),
                self.slots@.len() == old(self).slots@.len(),
                forall|j: int|
                    0 <= j < i ==> #[trigger] self.slots@[j] == without_screen(
                        old(self).slots@[j],
                        screen,
                    ),
                forall|j: int| i <= j < n ==> #[trigger] self.slots@[j] == old(self).slots@[j],
            decreases n - i,
        {
            let owned: bool = match self.slots[i] {
                Some(entity) => match entity.screen {
                    Some(owner) => owner == screen,
                    None => false,
                },
                None => false,
            };
            if owned {
                self.slots.set(i, None);
            }
            i = i + 1;
        }
        assert(self.slots@ =~= despawned(old(self).slots@, screen));
    }

    /// Counts the entities of the given kind that `screen` owns.
    pub fn census(&self, kind: Kind, screen: GameState) -> (n: usize)
        ensures
            n == census(self@, kind, screen),
    {
        let len: usize = self.slots.len();
        let mut n: usize = 0;
        let mut i: usize = 0;
        while i < len
            invariant
                i <= len,
                len == self.slots@.len(),
                n <= i,
                n == census(self.slots@.take(i as int), kind, screen),
            decreases len - i,
        {
            let member: bool = match self.slots[i] {
                Some(entity) => match entity.screen {
                    Some(owner) => owner == screen && entity.role.kind() == kind,
                    None => false,
                },
                None => false,
            };
            proof {
                let next = self.slots@.take(i + 1);
                assert(next.drop_last() =~= self.slots@.take(i as int));
                assert(next.last() == self.slots@[i as int]);
            }
            if member {
                n = n + 1;
            }
            i = i + 1;
        }
        assert(self.slots@.take(len as int) =~= self.slots@);
        n
    }
}

} // verus!
