//! The registry of resource kinds and the player's stock of resources, both
//! keyed by a resource's string identifier.
//!
//! Each is a list of entries with distinct identifiers; its view is the map
//! from an identifier's characters to the entry.

use vstd::prelude::*;

verus! {

/// A resource kind's identifier, such as `"gold"`.
#[derive(Debug, Clone, PartialEq, Eq, Hash)]
pub struct ResourceId(pub String);

impl View for ResourceId {
    type V = Seq<char>;

    open spec fn view(&self) -> Seq<char> {
        self.0@
    }
}

/// An sRGB colour, each channel in thousandths (1000 is full intensity).
#[derive(Debug, Clone, Copy, PartialEq, Eq)]
pub struct ResourceColor {
    pub red_milli: u16,
    pub green_milli: u16,
    pub blue_milli: u16,
}

/// A resource kind: its identifier, display name, colour, the time to gather
/// one unit (in milliseconds) and the path of its icon.
#[derive(Debug, Clone)]
pub struct ResourceDefinition {
    pub id: ResourceId,
    pub name: String,
    pub color: ResourceColor,
    pub gathering_time_ms: u32,
    pub icon_path: String,
}

/// No two entries share an identifier.
pub open spec fn ids_distinct(defs: Seq<ResourceDefinition>) -> bool {
    forall|i: int, j: int|
        0 <= i < defs.len() && 0 <= j < defs.len() && i != j ==> #[trigger] defs[i].id@
            != #[trigger] defs[j].id@
}

/// The map from identifier to entry; a later entry wins.
pub open spec fn definitions_map(defs: Seq<ResourceDefinition>) -> Map<Seq<char>, ResourceDefinition>
    decreases defs.len(),
{
    if defs.len() == 0 {
        Map::empty()
    } else {
        definitions_map(defs.drop_last()).insert(defs.last().id@, defs.last())
    }
}

proof fn lemma_definitions_lookup(defs: Seq<ResourceDefinition>, i: int)
    requires
        ids_distinct(defs),
        0 <= i < defs.len(),
    ensures
        definitions_map(defs).contains_key(defs[i].id@),
        definitions_map(defs)[defs[i].id@] == defs[i],
    decreases defs.len(),
{
    if i < defs.len() - 1 {
        assert(defs.drop_last()[i] == defs[i]);
        assert(ids_distinct(defs.drop_last()));
        lemma_definitions_lookup(defs.drop_last(), i);
        assert(defs[i].id@ != defs[defs.len() - 1].id@);
    }
}

proof fn lemma_definitions_keys(defs: Seq<ResourceDefinition>, k: Seq<char>)
    ensures
        definitions_map(defs).contains_key(k) <==> exists|i: int|
            0 <= i < defs.len() && #[trigger] defs[i].id@ == k,
    decreases defs.len(),
{
    if defs.len() > 0 {
        lemma_definitions_keys(defs.drop_last(), k);
        if definitions_map(defs).contains_key(k) {
            if k == defs.last().id@ {
                assert(defs[defs.len() - 1].id@ == k);
            } else {
                let i = choose|i: int| 0 <= i < defs.drop_last().len() && #[trigger] defs.drop_last()[i].id@ == k;
                assert(defs[i].id@ == k);
            }
        }
        if exists|i: int| 0 <= i < defs.len() && #[trigger] defs[i].id@ == k {
            let i = choose|i: int| 0 <= i < defs.len() && #[trigger] defs[i].id@ == k;
            if i < defs.len() - 1 {
                assert(defs.drop_last()[i].id@ == k);
            }
        }
    }
}

proof fn lemma_definitions_replace(defs: Seq<ResourceDefinition>, j: int, d: ResourceDefinition)
    requires
        ids_distinct(defs),
        0 <= j < defs.len(),
        defs[j].id@ == d.id@,
    ensures
        ids_distinct(defs.update(j, d)),
        definitions_map(defs.update(j, d)) == definitions_map(defs).insert(d.id@, d),
    decreases defs.len(),
{
    let updated = defs.update(j, d);
    assert(ids_distinct(updated)) by {
        assert forall|a: int, b: int|
            0 <= a < updated.len() && 0 <= b < updated.len() && a != b implies #[trigger] updated[a].id@
            != #[trigger] updated[b].id@ by {
            assert(defs[a].id@ != defs[b].id@);
        }
    }
    if j == defs.len() - 1 {
        assert(updated.drop_last() =~= defs.drop_last());
        assert(definitions_map(updated) =~= definitions_map(defs).insert(d.id@, d));
    } else {
        assert(updated.drop_last() =~= defs.drop_last().update(j, d));
        assert(ids_distinct(defs.drop_last()));
        lemma_definitions_replace(defs.drop_last(), j, d);
        assert(defs[j].id@ != defs[defs.len() - 1].id@);
        assert(definitions_map(updated) =~= definitions_map(defs).insert(d.id@, d));
    }
}

/// Every kind of resource in the game, by identifier.
pub struct ResourceRegistry {
    resources: Vec<ResourceDefinition>,
}

impl ResourceRegistry {
    /// No two entries share an identifier.
    #[verifier::type_invariant]
    spec fn registry_inv(self) -> bool {
        ids_distinct(self.resources@)
    }
}

/// A copy of a definition.
fn copy_definition(d: &ResourceDefinition) -> (c: ResourceDefinition)
    ensures
        c == *d,
{
    ResourceDefinition {
        id: ResourceId(d.id.0.clone()),
        name: d.name.clone(),
        color: d.color,
        gathering_time_ms: d.gathering_time_ms,
        icon_path: d.icon_path.clone(),
    }
}

/// Appends copies of `src[from..to]` to `dst`.
fn copy_definitions(src: &Vec<ResourceDefinition>, from: usize, to: usize, dst: &mut Vec<ResourceDefinition>)
    requires
        from <= to <= src@.len(),
    ensures
        final(dst)@ == old(dst)@ + src@.subrange(from as int, to as int),
{
    let mut i = from;
    while i < to
        invariant
            from <= i <= to,
            to <= src@.len(),
            dst@ == old(dst)@ + src@.subrange(from as int, i as int),
        decreases to - i,
    {
        let c = copy_definition(&src[i]);
        dst.push(c);
        proof {
            assert(src@.subrange(from as int, i + 1) =~= src@.subrange(from as int, i as int).push(
                src@[i as int],
            ));
        }
        i = i + 1;
    }
}

impl View for ResourceRegistry {
    type V = Map<Seq<char>, ResourceDefinition>;

    closed spec fn view(&self) -> Map<Seq<char>, ResourceDefinition> {
        definitions_map(self.resources@)
    }
}

/// Builds a definition from its parts.
fn make_definition(
    id: &str,
    name: &str,
    color: ResourceColor,
    gathering_time_ms: u32,
    icon_path: &str,
) -> (d: ResourceDefinition)
    ensures
        d.id@ == id@,
        d.name@ == name@,
        d.color == color,
        d.gathering_time_ms == gathering_time_ms,
        d.icon_path@ == icon_path@,
{
    ResourceDefinition {
        id: ResourceId(id.to_owned()),
        name: name.to_owned(),
        color,
        gathering_time_ms,
        icon_path: icon_path.to_owned(),
    }
}

impl Default for ResourceRegistry {
    /// Gold, wood and stone.
    fn default() -> (registry: Self)
        ensures
            registry@.dom() == set!["gold"@, "wood"@, "stone"@],
            registry@["gold"@].name@ == "Gold"@,
            registry@["gold"@].color == (ResourceColor {
                red_milli: 1000,
                green_milli: 840,
                blue_milli: 0,
            }),
            registry@["gold"@].gathering_time_ms == 3000,
            registry@["gold"@].icon_path@ == "resources/gold.png"@,
            registry@["wood"@].name@ == "Wood"@,
            registry@["wood"@].color == (ResourceColor {
                red_milli: 600,
                green_milli: 400,
                blue_milli: 200,
            }),
            registry@["wood"@].gathering_time_ms == 1500,
            registry@["wood"@].icon_path@ == "resources/wood.png"@,
            registry@["stone"@].name@ == "Stone"@,
            registry@["stone"@].color == (ResourceColor {
                red_milli: 700,
                green_milli: 700,
                blue_milli: 700,
            }),
            registry@["stone"@].gathering_time_ms == 2000,
            registry@["stone"@].icon_path@ == "resources/stone/stone.png"@,
    {
        let mut registry = Self { resources: Vec::new() };
        proof {
            assert(registry@ =~= Map::empty());
        }
        registry.register(
            make_definition(
                "gold",
                "Gold",
                ResourceColor { red_milli: 1000, green_milli: 840, blue_milli: 0 },
                3000,
                "resources/gold.png",
            ),
        );
        registry.register(
            make_definition(
                "wood",
                "Wood",
                ResourceColor { red_milli: 600, green_milli: 400, blue_milli: 200 },
                1500,
                "resources/wood.png",
            ),
        );
        registry.register(
            make_definition(
                "stone",
                "Stone",
                ResourceColor { red_milli: 700, green_milli: 700, blue_milli: 700 },
                2000,
                "resources/stone/stone.png",
            ),
        );
        proof {
            reveal_strlit("gold");
            reveal_strlit("wood");
            reveal_strlit("stone");
            assert("gold"@[0] != "wood"@[0]);
            assert("gold"@[0] != "stone"@[0]);
            assert("wood"@[0] != "stone"@[0]);
            assert(registry@.dom() =~= set!["gold"@, "wood"@, "stone"@]);
        }
        registry
    }
}

impl ResourceRegistry {
    /// The position of the entry with identifier `id`, if there is one.
    fn position_of(&self, id: &ResourceId) -> (pos: Option<usize>)
        ensures
            match pos {
                Some(i) => i < self.resources@.len() && self.resources@[i as int].id@ == id@,
                None => forall|i: int|
                    0 <= i < self.resources@.len() ==> #[trigger] self.resources@[i].id@ != id@,
            },
    {
        let n = self.resources.len();
        let mut i: usize = 0;
        while i < n
            invariant
                n == self.resources@.len(),
                i <= n,
                forall|j: int| 0 <= j < i ==> #[trigger] self.resources@[j].id@ != id@,
            decreases n - i,
        {
            if self.resources[i].id.0 == id.0 {
                return Some(i);
            }
            i = i + 1;
        }
        None
    }

    /// Adds `definition` under its identifier, replacing any entry with the
    /// same identifier.
    pub fn register(&mut self, definition: ResourceDefinition)
        ensures
            final(self)@ == old(self)@.insert(definition.id@, definition),
    {
        proof {
            use_type_invariant(&*self);
        }
        let ghost defs = self.resources@;
        let n = self.resources.len();
        let mut rebuilt: Vec<ResourceDefinition> = Vec::new();
        match self.position_of(&definition.id) {
            Some(i) => {
                copy_definitions(&self.resources, 0, i, &mut rebuilt);
                rebuilt.push(definition);
                copy_definitions(&self.resources, i + 1, n, &mut rebuilt);
                proof {
                    assert(rebuilt@ =~= defs.update(i as int, definition));
                    lemma_definitions_replace(defs, i as int, definition);
                }
                self.resources = rebuilt;
            },
            None => {
                copy_definitions(&self.resources, 0, n, &mut rebuilt);
                rebuilt.push(definition);
                proof {
                    let pushed = defs.push(definition);
                    assert(rebuilt@ =~= pushed);
                    assert(pushed.drop_last() =~= defs);
                    assert(ids_distinct(pushed)) by {
                        assert forall|a: int, b: int|
                            0 <= a < pushed.len() && 0 <= b < pushed.len() && a != b implies #[trigger] pushed[a].id@
                            != #[trigger] pushed[b].id@ by {
                            if a < defs.len() && b < defs.len() {
                                assert(defs[a].id@ != defs[b].id@);
                            } else if a < defs.len() {
                                assert(defs[a].id@ != definition.id@);
                            } else {
                                assert(defs[b].id@ != definition.id@);
                            }
                        }
                    }
                }
                self.resources = rebuilt;
            },
        }
    }

    /// The entry with identifier `id`, if there is one.
    pub fn get(&self, id: &ResourceId) -> (found: Option<&ResourceDefinition>)
        ensures
            match found {
                Some(d) => self@.contains_key(id@) && *d == self@[id@],
                None => !self@.contains_key(id@),
            },
    {
        proof {
            use_type_invariant(self);
            lemma_definitions_keys(self.resources@, id@);
        }
        match self.position_of(id) {
            Some(i) => {
                proof {
                    lemma_definitions_lookup(self.resources@, i as int);
                }
                Some(&self.resources[i])
            },
            None => None,
        }
    }

    /// Every entry once.
    pub fn all(&self) -> (defs: &[ResourceDefinition])
        ensures
            ids_distinct(defs@),
            forall|i: int|
                0 <= i < defs@.len() ==> self@.contains_key(#[trigger] defs@[i].id@) && self@[defs@[i].id@]
                    == defs@[i],
            forall|k: Seq<char>|
                #[trigger] self@.contains_key(k) ==> exists|i: int|
                    0 <= i < defs@.len() && #[trigger] defs@[i].id@ == k,
    {
        proof {
            use_type_invariant(self);
            assert forall|i: int|
                0 <= i < self.resources@.len() implies self@.contains_key(
                #[trigger] self.resources@[i].id@,
            ) && self@[self.resources@[i].id@] == self.resources@[i] by {
                lemma_definitions_lookup(self.resources@, i);
            }
            assert forall|k: Seq<char>| #[trigger] self@.contains_key(k) implies exists|i: int|
                0 <= i < self.resources@.len() && #[trigger] self.resources@[i].id@ == k by {
                lemma_definitions_keys(self.resources@, k);
            }
        }
        self.resources.as_slice()
    }
}

/// The amount of each resource the player owns.
pub struct PlayerResources {
    resources: Vec<(ResourceId, u32)>,
}

/// The map from identifier to amount; a later entry wins.
pub open spec fn amounts_map(entries: Seq<(ResourceId, u32)>) -> Map<Seq<char>, u32>
    decreases entries.len(),
{
    if entries.len() == 0 {
        Map::empty()
    } else {
        amounts_map(entries.drop_last()).insert(entries.last().0@, entries.last().1)
    }
}

proof fn lemma_amounts_absent(entries: Seq<(ResourceId, u32)>, k: Seq<char>)
    requires
        forall|i: int| 0 <= i < entries.len() ==> #[trigger] entries[i].0@ != k,
    ensures
        !amounts_map(entries).contains_key(k),
    decreases entries.len(),
{
    if entries.len() > 0 {
        assert forall|i: int| 0 <= i < entries.drop_last().len() implies #[trigger] entries.drop_last()[i].0@
            != k by {
            assert(entries[i].0@ != k);
        }
        lemma_amounts_absent(entries.drop_last(), k);
        assert(entries[entries.len() - 1].0@ != k);
    }
}

proof fn lemma_amounts_lookup(entries: Seq<(ResourceId, u32)>, i: int)
    requires
        0 <= i < entries.len(),
        forall|j: int| 0 <= j < entries.len() && j != i ==> #[trigger] entries[j].0@ != entries[i].0@,
    ensures
        amounts_map(entries).contains_key(entries[i].0@),
        amounts_map(entries)[entries[i].0@] == entries[i].1,
    decreases entries.len(),
{
    if i < entries.len() - 1 {
        let rest = entries.drop_last();
        assert forall|j: int| 0 <= j < rest.len() && j != i implies #[trigger] rest[j].0@ != rest[i].0@ by {
            assert(entries[j].0@ != entries[i].0@);
        }
        lemma_amounts_lookup(rest, i);
        assert(entries[entries.len() - 1].0@ != entries[i].0@);
    }
}

/// No two stock entries share an identifier.
pub open spec fn stock_ids_distinct(entries: Seq<(ResourceId, u32)>) -> bool {
    forall|i: int, j: int|
        0 <= i < entries.len() && 0 <= j < entries.len() && i != j ==> #[trigger] entries[i].0@
            != #[trigger] entries[j].0@
}

proof fn lemma_amounts_replace(entries: Seq<(ResourceId, u32)>, j: int, e: (ResourceId, u32))
    requires
        stock_ids_distinct(entries),
        0 <= j < entries.len(),
        entries[j].0@ == e.0@,
    ensures
        stock_ids_distinct(entries.update(j, e)),
        amounts_map(entries.update(j, e)) == amounts_map(entries).insert(e.0@, e.1),
    decreases entries.len(),
{
    let updated = entries.update(j, e);
    assert(stock_ids_distinct(updated)) by {
        assert forall|a: int, b: int|
            0 <= a < updated.len() && 0 <= b < updated.len() && a != b implies #[trigger] updated[a].0@
            != #[trigger] updated[b].0@ by {
            assert(entries[a].0@ != entries[b].0@);
        }
    }
    if j == entries.len() - 1 {
        assert(updated.drop_last() =~= entries.drop_last());
        assert(amounts_map(updated) =~= amounts_map(entries).insert(e.0@, e.1));
    } else {
        assert(updated.drop_last() =~= entries.drop_last().update(j, e));
        assert(stock_ids_distinct(entries.drop_last()));
        lemma_amounts_replace(entries.drop_last(), j, e);
        assert(entries[j].0@ != entries[entries.len() - 1].0@);
        assert(amounts_map(updated) =~= amounts_map(entries).insert(e.0@, e.1));
    }
}

/// Appends copies of `src[from..to]` to `dst`.
fn copy_entries(src: &Vec<(ResourceId, u32)>, from: usize, to: usize, dst: &mut Vec<(ResourceId, u32)>)
    requires
        from <= to <= src@.len(),
    ensures
        final(dst)@ == old(dst)@ + src@.subrange(from as int, to as int),
{
    let mut i = from;
    while i < to
        invariant
            from <= i <= to,
            to <= src@.len(),
            dst@ == old(dst)@ + src@.subrange(from as int, i as int),
        decreases to - i,
    {
        let c = (ResourceId(src[i].0.0.clone()), src[i].1);
        dst.push(c);
        proof {
            assert(src@.subrange(from as int, i + 1) =~= src@.subrange(from as int, i as int).push(
                src@[i as int],
            ));
        }
        i = i + 1;
    }
}

impl PlayerResources {
    #[verifier::type_invariant]
    spec fn stock_inv(self) -> bool {
        stock_ids_distinct(self.resources@)
    }
}

impl View for PlayerResources {
    type V = Map<Seq<char>, u32>;

    closed spec fn view(&self) -> Map<Seq<char>, u32> {
        amounts_map(self.resources@)
    }
}

impl Default for PlayerResources {
    /// The player starts with nothing.
    fn default() -> (stock: Self)
        ensures
            stock@ == Map::<Seq<char>, u32>::empty(),
    {
        PlayerResources { resources: Vec::new() }
    }
}

impl PlayerResources {
    /// The amount of `resource_id` the player owns; zero for a resource the
    /// player never had.
    pub fn get(&self, resource_id: &ResourceId) -> (amount: u32)
        ensures
            amount == (if self@.contains_key(resource_id@) {
                self@[resource_id@]
            } else {
                0
            }),
    {
        proof {
            use_type_invariant(self);
        }
        let n = self.resources.len();
        let mut i: usize = 0;
        while i < n
            invariant
                n == self.resources@.len(),
                i <= n,
                forall|j: int| 0 <= j < i ==> #[trigger] self.resources@[j].0@ != resource_id@,
            decreases n - i,
        {
            if self.resources[i].0.0 == resource_id.0 {
                proof {
                    use_type_invariant(self);
                    lemma_amounts_lookup(self.resources@, i as int);
                }
                return self.resources[i].1;
            }
            i = i + 1;
        }
        proof {
            lemma_amounts_absent(self.resources@, resource_id@);
        }
        0
    }

    /// The position of the entry for `resource_id`, if there is one.
    fn position_of(&self, resource_id: &ResourceId) -> (pos: Option<usize>)
        ensures
            match pos {
                Some(i) => i < self.resources@.len() && self.resources@[i as int].0@ == resource_id@,
                None => forall|i: int|
                    0 <= i < self.resources@.len() ==> #[trigger] self.resources@[i].0@ != resource_id@,
            },
    {
        let n = self.resources.len();
        let mut i: usize = 0;
        while i < n
            invariant
                n == self.resources@.len(),
                i <= n,
                forall|j: int| 0 <= j < i ==> #[trigger] self.resources@[j].0@ != resource_id@,
            decreases n - i,
        {
            if self.resources[i].0.0 == resource_id.0 {
                return Some(i);
            }
            i = i + 1;
        }
        None
    }

    /// Adds `amount` to what the player owns of `resource_id`, as a
    /// finished gathering cycle does.
    pub fn add(&mut self, resource_id: &ResourceId, amount: u32)
        requires
            old(self)@.contains_key(resource_id@) ==> old(self)@[resource_id@] + amount <= u32::MAX,
        ensures
            final(self)@ == old(self)@.insert(
                resource_id@,
                ((if old(self)@.contains_key(resource_id@) {
                    old(self)@[resource_id@] as int
                } else {
                    0
                }) + amount) as u32,
            ),
    {
        proof {
            use_type_invariant(&*self);
        }
        let ghost entries = self.resources@;
        let n = self.resources.len();
        let mut rebuilt: Vec<(ResourceId, u32)> = Vec::new();
        match self.position_of(resource_id) {
            Some(i) => {
                proof {
                    lemma_amounts_lookup(entries, i as int);
                }
                let total = self.resources[i].1 + amount;
                copy_entries(&self.resources, 0, i, &mut rebuilt);
                rebuilt.push((ResourceId(resource_id.0.clone()), total));
                copy_entries(&self.resources, i + 1, n, &mut rebuilt);
                proof {
                    assert(rebuilt@ =~= entries.update(i as int, rebuilt@[i as int]));
                    lemma_amounts_replace(entries, i as int, rebuilt@[i as int]);
                }
                self.resources = rebuilt;
            },
            None => {
                proof {
                    lemma_amounts_absent(entries, resource_id@);
                }
                copy_entries(&self.resources, 0, n, &mut rebuilt);
                rebuilt.push((ResourceId(resource_id.0.clone()), amount));
                proof {
                    let pushed = rebuilt@;
                    assert(pushed.drop_last() =~= entries);
                    assert(stock_ids_distinct(pushed)) by {
                        assert forall|a: int, b: int|
                            0 <= a < pushed.len() && 0 <= b < pushed.len() && a != b implies #[trigger] pushed[a].0@
                            != #[trigger] pushed[b].0@ by {
                            if a < entries.len() && b < entries.len() {
                                assert(entries[a].0@ != entries[b].0@);
                            } else if a < entries.len() {
                                assert(entries[a].0@ != resource_id@);
                            } else {
                                assert(entries[b].0@ != resource_id@);
                            }
                        }
                    }
                }
                self.resources = rebuilt;
            },
        }
    }
}

} // verus!
