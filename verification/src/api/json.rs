//! The definitions a scene file is made of (components, behaviors,
//! entities, scenes), the errors and results of loading one, and the plan
//! by which a scene is loaded into a world.

use std::collections::BTreeMap;
use serde_json::Value;
use crate::ecs::query::EntityId;
use vstd::prelude::*;
use vstd::string::StringExecFns;

verus! {

#[verifier::external_type_specification]
#[verifier::external_body]
pub struct ExJsonValue(serde_json::Value);

/// The derived `Clone` of `serde_json::Value`: a copy equal to the cloned value.
pub assume_specification[ <serde_json::Value as Clone>::clone ](v: &serde_json::Value) -> (r: serde_json::Value)
    ensures
        r == *v,
;

/// The member named `key` of a JSON value, as `serde_json::Value::get`
/// finds it: present when the value is an object that has one.
pub uninterp spec fn json_member_of(data: Value, key: Seq<char>) -> Option<Value>;

/// A JSON value as a signed integer, as `serde_json::Value::as_i64` reads it.
pub uninterp spec fn json_i64_of(v: Value) -> Option<i64>;

/// A JSON value as a boolean, as `serde_json::Value::as_bool` reads it.
pub uninterp spec fn json_bool_of(v: Value) -> Option<bool>;

/// A JSON value as text, as `serde_json::Value::as_str` reads it.
pub uninterp spec fn json_str_of(v: Value) -> Option<Seq<char>>;

/// `serde_json::Value::get` with a string key: the member named `key` when
/// the value is an object that has one; its outcome is named
/// `json_member_of`, a function of the value and the key alone.
#[verifier::external_body]
fn json_member<'a>(data: &'a Value, key: &str) -> (r: Option<&'a Value>)
    ensures
        match r {
            Some(v) => json_member_of(*data, key@) == Some(*v),
            None => json_member_of(*data, key@) is None,
        },
{
    data.get(key)
}

/// `serde_json::Value::as_i64`: the value as a signed integer when it is a
/// number that fits one; named `json_i64_of`.
#[verifier::external_body]
fn json_as_i64(v: &Value) -> (r: Option<i64>)
    ensures
        r == json_i64_of(*v),
{
    v.as_i64()
}

/// `serde_json::Value::as_bool`: the value when it is a boolean; named
/// `json_bool_of`.
#[verifier::external_body]
fn json_as_bool(v: &Value) -> (r: Option<bool>)
    ensures
        r == json_bool_of(*v),
{
    v.as_bool()
}

/// `serde_json::Value::as_str`: the text when the value is a string; named
/// `json_str_of`.
#[verifier::external_body]
fn json_as_str<'a>(v: &'a Value) -> (r: Option<&'a str>)
    ensures
        match r {
            Some(t) => json_str_of(*v) == Some(t@),
            None => json_str_of(*v) is None,
        },
{
    v.as_str()
}

/// The member `key` of `data` as an `i32`: its integer value truncated.
pub open spec fn i32_member(data: Value, key: Seq<char>) -> Option<i32> {
    match json_member_of(data, key) {
        Some(v) => match json_i64_of(v) {
            Some(n) => Some(n as i32),
            None => None,
        },
        None => None,
    }
}

/// The member `key` of `data` as a boolean.
pub open spec fn bool_member(data: Value, key: Seq<char>) -> Option<bool> {
    match json_member_of(data, key) {
        Some(v) => json_bool_of(v),
        None => None,
    }
}

/// The member `key` of `data` as text.
pub open spec fn str_member(data: Value, key: Seq<char>) -> Option<Seq<char>> {
    match json_member_of(data, key) {
        Some(v) => json_str_of(v),
        None => None,
    }
}

/// Whether `c` is the first component of `cs` whose type name is `t`.
pub open spec fn first_of_type(cs: Seq<ComponentDefinition>, t: Seq<char>, c: ComponentDefinition) -> bool {
    exists|i: int|
        #![trigger cs[i]]
        0 <= i < cs.len() && cs[i] == c && c.component_type@ == t && forall|j: int|
            0 <= j < i ==> (#[trigger] cs[j]).component_type@ != t
}

/// Whether some component of `cs` has the type name `t`.
pub open spec fn has_type(cs: Seq<ComponentDefinition>, t: Seq<char>) -> bool {
    exists|i: int| 0 <= i < cs.len() && (#[trigger] cs[i]).component_type@ == t
}

/// The first component of `components` whose type name is `component_type`.
fn find_component<'a>(components: &'a Vec<ComponentDefinition>, component_type: &str) -> (r: Option<&'a ComponentDefinition>)
    ensures
        match r {
            Some(c) => first_of_type(components@, component_type@, *c),
            None => !has_type(components@, component_type@),
        },
{
    let wanted = component_type.to_owned();
    let mut i: usize = 0;
    while i < components.len()
        invariant
            wanted@ == component_type@,
            i <= components.len(),
            forall|j: int| 0 <= j < i ==> (#[trigger] components@[j]).component_type@ != component_type@,
        decreases components.len() - i,
    {
        if components[i].component_type == wanted {
            assert(components@[i as int] == components@[i as int]);
            return Some(&components[i]);
        }
        i += 1;
    }
    None
}

/// A component in a scene file: the name of its type and its configuration.
#[derive(Clone, Debug, PartialEq)]
pub struct ComponentDefinition {
    /// Component type identifier (e.g. "Position", "Velocity", "Health")
    pub component_type: String,
    /// Component configuration data
    pub data: Value,
}

impl ComponentDefinition {
    /// Creates a new ComponentDefinition
    pub fn new(component_type: String, data: Value) -> (r: Self)
        ensures
            r.component_type == component_type,
            r.data == data,
    {
        ComponentDefinition { component_type, data }
    }

    /// The component type name.
    pub fn component_type(&self) -> (r: &str)
        ensures
            r@ == self.component_type@,
    {
        self.component_type.as_str()
    }

    /// The configuration data.
    pub fn data(&self) -> (r: &Value)
        ensures
            *r == self.data,
    {
        &self.data
    }

    /// The member `key` of the data as an `i32`, when it is an integer (an
    /// integer outside the `i32` range is truncated).
    pub fn get_i32(&self, key: &str) -> (r: Option<i32>)
        ensures
            r == i32_member(self.data, key@),
    {
        match json_member(&self.data, key) {
            Some(v) => match json_as_i64(v) {
                Some(n) => Some(n as i32),
                None => None,
            },
            None => None,
        }
    }

    /// The member `key` of the data, when it is a boolean.
    pub fn get_bool(&self, key: &str) -> (r: Option<bool>)
        ensures
            r == bool_member(self.data, key@),
    {
        match json_member(&self.data, key) {
            Some(v) => json_as_bool(v),
            None => None,
        }
    }

    /// The member `key` of the data, when it is a string.
    pub fn get_string(&self, key: &str) -> (r: Option<&str>)
        ensures
            match r {
                Some(t) => str_member(self.data, key@) == Some(t@),
                None => str_member(self.data, key@) is None,
            },
    {
        match json_member(&self.data, key) {
            Some(v) => json_as_str(v),
            None => None,
        }
    }
}

/// A reusable set of components that entities can take on.
#[derive(Clone, Debug, PartialEq)]
pub struct BehaviorDefinition {
    /// Unique identifier for this behavior definition
    pub id: String,
    /// Human-readable name
    pub name: String,
    /// Optional description
    pub description: Option<String>,
    /// Components that make up this behavior
    pub components: Vec<ComponentDefinition>,
}

impl BehaviorDefinition {
    /// Creates a new BehaviorDefinition
    pub fn new(id: String, name: String, description: Option<String>, components: Vec<ComponentDefinition>) -> (r: Self)
        ensures
            r.id == id,
            r.name == name,
            r.description == description,
            r.components == components,
    {
        BehaviorDefinition { id, name, description, components }
    }

    /// The number of components.
    pub fn component_count(&self) -> (r: usize)
        ensures
            r == self.components.len(),
    {
        self.components.len()
    }

    /// Whether this behavior has a component of the given type.
    pub fn has_component(&self, component_type: &str) -> (r: bool)
        ensures
            r == has_type(self.components@, component_type@),
    {
        find_component(&self.components, component_type).is_some()
    }

    /// The first component of the given type.
    pub fn get_component(&self, component_type: &str) -> (r: Option<&ComponentDefinition>)
        ensures
            match r {
                Some(c) => first_of_type(self.components@, component_type@, *c),
                None => !has_type(self.components@, component_type@),
            },
    {
        find_component(&self.components, component_type)
    }
}

/// An entity of a scene file: its components, the behaviors it takes on
/// and its child entities.
#[derive(Debug, PartialEq)]
pub struct EntityDefinition {
    /// Entity identifier
    pub id: String,
    /// Human-readable name for debugging
    pub name: Option<String>,
    /// Components directly attached to this entity
    pub components: Vec<ComponentDefinition>,
    /// Behavior IDs to apply
    pub behaviors: Vec<String>,
    /// Child entities
    pub children: Vec<EntityDefinition>,
}

/// The number of entities in the tree rooted at `e`, `e` included.
pub open spec fn entity_total(e: EntityDefinition) -> nat
    decreases e, 1nat,
{
    1 + forest_entity_total(e.children@)
}

/// The number of entities in the trees rooted at the members of `s`.
pub open spec fn forest_entity_total(s: Seq<EntityDefinition>) -> nat
    decreases s, 0nat,
{
    if s.len() == 0 {
        0
    } else {
        forest_entity_total(s.drop_last()) + entity_total(s.last())
    }
}

/// The number of components in the tree rooted at `e`.
pub open spec fn component_total(e: EntityDefinition) -> nat
    decreases e, 1nat,
{
    e.components@.len() + forest_component_total(e.children@)
}

/// The number of components in the trees rooted at the members of `s`.
pub open spec fn forest_component_total(s: Seq<EntityDefinition>) -> nat
    decreases s, 0nat,
{
    if s.len() == 0 {
        0
    } else {
        forest_component_total(s.drop_last()) + component_total(s.last())
    }
}

/// Counts over a prefix of a forest grow by one tree at a time and never
/// exceed the counts over the whole forest.
proof fn lemma_forest_prefix(s: Seq<EntityDefinition>, i: int)
    requires
        0 <= i < s.len(),
    ensures
        forest_entity_total(s.subrange(0, i + 1)) == forest_entity_total(s.subrange(0, i)) + entity_total(s[i]),
        forest_component_total(s.subrange(0, i + 1)) == forest_component_total(s.subrange(0, i)) + component_total(s[i]),
        forest_entity_total(s.subrange(0, i + 1)) <= forest_entity_total(s),
        forest_component_total(s.subrange(0, i + 1)) <= forest_component_total(s),
    decreases s.len(),
{
    assert(s.subrange(0, i + 1).drop_last() =~= s.subrange(0, i));
    if i + 1 < s.len() {
        lemma_forest_prefix(s.drop_last(), i);
        assert(s.drop_last().subrange(0, i + 1) =~= s.subrange(0, i + 1));
        assert(s.drop_last().subrange(0, i) =~= s.subrange(0, i));
    } else {
        assert(s.subrange(0, i + 1) =~= s);
    }
}

impl Default for EntityDefinition {
    fn default() -> (r: Self)
        ensures
            r.id@ == Seq::<char>::empty(),
            r.name is None,
            r.components@ == Seq::<ComponentDefinition>::empty(),
            r.behaviors@ == Seq::<String>::empty(),
            r.children@ == Seq::<EntityDefinition>::empty(),
    {
        EntityDefinition::new(String::new())
    }
}

impl EntityDefinition {
    /// Creates a new EntityDefinition
    pub fn new(id: String) -> (r: Self)
        ensures
            r.id == id,
            r.name is None,
            r.components@ == Seq::<ComponentDefinition>::empty(),
            r.behaviors@ == Seq::<String>::empty(),
            r.children@ == Seq::<EntityDefinition>::empty(),
    {
        EntityDefinition { id, name: None, components: Vec::new(), behaviors: Vec::new(), children: Vec::new() }
    }

    /// Builder: adds a component
    pub fn with_component(self, component: ComponentDefinition) -> (r: Self)
        ensures
            r.components@ == self.components@.push(component),
            r.id == self.id,
            r.name == self.name,
            r.behaviors == self.behaviors,
            r.children == self.children,
    {
        let mut e = self;
        e.components.push(component);
        e
    }

    /// Builder: adds a behavior reference
    pub fn with_behavior(self, behavior_id: String) -> (r: Self)
        ensures
            r.behaviors@ == self.behaviors@.push(behavior_id),
            r.id == self.id,
            r.name == self.name,
            r.components == self.components,
            r.children == self.children,
    {
        let mut e = self;
        e.behaviors.push(behavior_id);
        e
    }

    /// Builder: adds a child entity
    pub fn with_child(self, child: EntityDefinition) -> (r: Self)
        ensures
            r.children@ == self.children@.push(child),
            r.id == self.id,
            r.name == self.name,
            r.components == self.components,
            r.behaviors == self.behaviors,
    {
        let mut e = self;
        e.children.push(child);
        e
    }

    /// Builder: sets the name
    pub fn with_name(self, name: String) -> (r: Self)
        ensures
            r.name == Some(name),
            r.id == self.id,
            r.components == self.components,
            r.behaviors == self.behaviors,
            r.children == self.children,
    {
        let mut e = self;
        e.name = Some(name);
        e
    }

    /// Total component count, children included
    pub fn total_component_count(&self) -> (r: usize)
        requires
            component_total(*self) <= usize::MAX,
        ensures
            r == component_total(*self),
        decreases *self,
    {
        let mut count: usize = self.components.len();
        let mut i: usize = 0;
        while i < self.children.len()
            invariant
                i <= self.children.len(),
                component_total(*self) <= usize::MAX,
                count == self.components.len() + forest_component_total(self.children@.subrange(0, i as int)),
            decreases self.children.len() - i,
        {
            proof {
                lemma_forest_prefix(self.children@, i as int);
                assert(decreases_to!(*self => self.children@[i as int]));
            }
            let c = self.children[i].total_component_count();
            count = count + c;
            i += 1;
        }
        assert(self.children@.subrange(0, i as int) =~= self.children@);
        count
    }

    /// Total entity count, this entity and its descendants
    pub fn total_entity_count(&self) -> (r: usize)
        requires
            entity_total(*self) <= usize::MAX,
        ensures
            r == entity_total(*self),
        decreases *self,
    {
        let mut count: usize = 1;
        let mut i: usize = 0;
        while i < self.children.len()
            invariant
                i <= self.children.len(),
                entity_total(*self) <= usize::MAX,
                count == 1 + forest_entity_total(self.children@.subrange(0, i as int)),
            decreases self.children.len() - i,
        {
            proof {
                lemma_forest_prefix(self.children@, i as int);
                assert(decreases_to!(*self => self.children@[i as int]));
            }
            let c = self.children[i].total_entity_count();
            count = count + c;
            i += 1;
        }
        assert(self.children@.subrange(0, i as int) =~= self.children@);
        count
    }

    /// The first directly attached component of the given type.
    pub fn get_component(&self, component_type: &str) -> (r: Option<&ComponentDefinition>)
        ensures
            match r {
                Some(c) => first_of_type(self.components@, component_type@, *c),
                None => !has_type(self.components@, component_type@),
            },
    {
        find_component(&self.components, component_type)
    }
}

/// The first member of `s` whose id is `id`.
pub open spec fn first_with_id(s: Seq<EntityDefinition>, id: Seq<char>) -> Option<EntityDefinition>
    decreases s.len(),
{
    if s.len() == 0 {
        None
    } else {
        match first_with_id(s.drop_last(), id) {
            Some(e) => Some(e),
            None => if s.last().id@ == id {
                Some(s.last())
            } else {
                None
            },
        }
    }
}

/// The entity with the given id found below `e`: first among the children
/// of `e`, in order; else below each child in turn.
pub open spec fn find_below(e: EntityDefinition, id: Seq<char>) -> Option<EntityDefinition>
    decreases e, 1nat,
{
    match first_with_id(e.children@, id) {
        Some(c) => Some(c),
        None => find_below_each(e.children@, id),
    }
}

/// The entity with the given id found below the first member of `s` below
/// which there is one.
pub open spec fn find_below_each(s: Seq<EntityDefinition>, id: Seq<char>) -> Option<EntityDefinition>
    decreases s, 0nat,
{
    if s.len() == 0 {
        None
    } else {
        match find_below_each(s.drop_last(), id) {
            Some(e) => Some(e),
            None => find_below(s.last(), id),
        }
    }
}

/// The first member of `entities` whose id is `id`.
fn first_entity_with_id<'a>(entities: &'a Vec<EntityDefinition>, id: &String) -> (r: Option<&'a EntityDefinition>)
    ensures
        match r {
            Some(e) => first_with_id(entities@, id@) == Some(*e),
            None => first_with_id(entities@, id@) is None,
        },
{
    let mut i: usize = 0;
    while i < entities.len()
        invariant
            i <= entities.len(),
            first_with_id(entities@.subrange(0, i as int), id@) is None,
        decreases entities.len() - i,
    {
        assert(entities@.subrange(0, i + 1).drop_last() =~= entities@.subrange(0, i as int));
        if entities[i].id == *id {
            proof {
                lemma_first_with_id_extends(entities@, id@, i + 1);
            }
            return Some(&entities[i]);
        }
        i += 1;
    }
    assert(entities@.subrange(0, i as int) =~= entities@);
    None
}

/// A match in a prefix of `s` is the match in `s`.
proof fn lemma_first_with_id_extends(s: Seq<EntityDefinition>, id: Seq<char>, k: int)
    requires
        0 <= k <= s.len(),
        first_with_id(s.subrange(0, k), id) is Some,
    ensures
        first_with_id(s, id) == first_with_id(s.subrange(0, k), id),
    decreases s.len() - k,
{
    if k < s.len() {
        assert(s.subrange(0, k + 1).drop_last() =~= s.subrange(0, k));
        lemma_first_with_id_extends(s, id, k + 1);
    } else {
        assert(s.subrange(0, k) =~= s);
    }
}

/// A match below a prefix of `s` is the match below `s`.
proof fn lemma_find_below_each_extends(s: Seq<EntityDefinition>, id: Seq<char>, k: int)
    requires
        0 <= k <= s.len(),
        find_below_each(s.subrange(0, k), id) is Some,
    ensures
        find_below_each(s, id) == find_below_each(s.subrange(0, k), id),
    decreases s.len() - k,
{
    if k < s.len() {
        assert(s.subrange(0, k + 1).drop_last() =~= s.subrange(0, k));
        lemma_find_below_each_extends(s, id, k + 1);
    } else {
        assert(s.subrange(0, k) =~= s);
    }
}

/// The entity with the given id below `e` (see `find_below`).
fn find_entity_below<'a>(e: &'a EntityDefinition, id: &String) -> (r: Option<&'a EntityDefinition>)
    ensures
        match r {
            Some(x) => find_below(*e, id@) == Some(*x),
            None => find_below(*e, id@) is None,
        },
    decreases *e, 1nat,
{
    match first_entity_with_id(&e.children, id) {
        Some(c) => Some(c),
        None => find_entity_below_each(&e.children, id),
    }
}

/// The entity with the given id below the members of `s` (see
/// `find_below_each`).
fn find_entity_below_each<'a>(s: &'a Vec<EntityDefinition>, id: &String) -> (r: Option<&'a EntityDefinition>)
    ensures
        match r {
            Some(x) => find_below_each(s@, id@) == Some(*x),
            None => find_below_each(s@, id@) is None,
        },
    decreases s@, 0nat,
{
    let mut i: usize = 0;
    while i < s.len()
        invariant
            i <= s.len(),
            find_below_each(s@.subrange(0, i as int), id@) is None,
        decreases s.len() - i,
    {
        assert(s@.subrange(0, i + 1).drop_last() =~= s@.subrange(0, i as int));
        assert(s@.subrange(0, i + 1).last() == s@[i as int]);
        proof {
            assert(decreases_to!(s@ => s@[i as int]));
        }
        let found = find_entity_below(&s[i], id);
        if found.is_some() {
            proof {
                lemma_find_below_each_extends(s@, id@, i + 1);
            }
            return found;
        }
        i += 1;
    }
    assert(s@.subrange(0, i as int) =~= s@);
    None
}

/// A scene: its entities and the behaviors they can take on.
#[derive(Debug, PartialEq)]
pub struct Scene {
    /// Unique scene identifier
    pub id: String,
    /// Human-readable name
    pub name: Option<String>,
    /// Scene version
    pub version: String,
    /// Top-level entities
    pub entities: Vec<EntityDefinition>,
    /// Inline behavior definitions
    pub behaviors: Vec<BehaviorDefinition>,
}

/// The first member of `s` whose id is `id`.
pub open spec fn first_behavior_with_id(s: Seq<BehaviorDefinition>, id: Seq<char>) -> Option<BehaviorDefinition>
    decreases s.len(),
{
    if s.len() == 0 {
        None
    } else {
        match first_behavior_with_id(s.drop_last(), id) {
            Some(b) => Some(b),
            None => if s.last().id@ == id {
                Some(s.last())
            } else {
                None
            },
        }
    }
}

/// The version a new scene has.
pub open spec fn default_scene_version() -> Seq<char> {
    seq!['1', '.', '0', '.', '0']
}

impl Default for Scene {
    fn default() -> (r: Self)
        ensures
            r.id@ == Seq::<char>::empty(),
            r.name is None,
            r.version@ == default_scene_version(),
            r.entities@ == Seq::<EntityDefinition>::empty(),
            r.behaviors@ == Seq::<BehaviorDefinition>::empty(),
    {
        Scene::new(String::new())
    }
}

impl Scene {
    /// Creates a new Scene
    pub fn new(id: String) -> (r: Self)
        ensures
            r.id == id,
            r.name is None,
            r.version@ == default_scene_version(),
            r.entities@ == Seq::<EntityDefinition>::empty(),
            r.behaviors@ == Seq::<BehaviorDefinition>::empty(),
    {
        let version = String::from_str("1.0.0");
        proof {
            reveal_strlit("1.0.0");
        }
        assert(version@ =~= default_scene_version());
        Scene { id, name: None, version, entities: Vec::new(), behaviors: Vec::new() }
    }

    /// Builder: adds an entity
    pub fn with_entity(self, entity: EntityDefinition) -> (r: Self)
        ensures
            r.entities@ == self.entities@.push(entity),
            r.id == self.id,
            r.name == self.name,
            r.version == self.version,
            r.behaviors == self.behaviors,
    {
        let mut scene = self;
        scene.entities.push(entity);
        scene
    }

    /// Builder: adds a behavior
    pub fn with_behavior(self, behavior: BehaviorDefinition) -> (r: Self)
        ensures
            r.behaviors@ == self.behaviors@.push(behavior),
            r.id == self.id,
            r.name == self.name,
            r.version == self.version,
            r.entities == self.entities,
    {
        let mut scene = self;
        scene.behaviors.push(behavior);
        scene
    }

    /// Builder: sets the name
    pub fn with_name(self, name: String) -> (r: Self)
        ensures
            r.name == Some(name),
            r.id == self.id,
            r.version == self.version,
            r.entities == self.entities,
            r.behaviors == self.behaviors,
    {
        let mut scene = self;
        scene.name = Some(name);
        scene
    }

    /// Total entity count, nested children included
    pub fn total_entity_count(&self) -> (r: usize)
        requires
            forest_entity_total(self.entities@) <= usize::MAX,
        ensures
            r == forest_entity_total(self.entities@),
    {
        let mut count: usize = 0;
        let mut i: usize = 0;
        while i < self.entities.len()
            invariant
                i <= self.entities.len(),
                forest_entity_total(self.entities@) <= usize::MAX,
                count == forest_entity_total(self.entities@.subrange(0, i as int)),
            decreases self.entities.len() - i,
        {
            proof {
                lemma_forest_prefix(self.entities@, i as int);
            }
            let c = self.entities[i].total_entity_count();
            count = count + c;
            i += 1;
        }
        assert(self.entities@.subrange(0, i as int) =~= self.entities@);
        count
    }

    /// The first behavior with the given id.
    pub fn get_behavior(&self, behavior_id: &str) -> (r: Option<&BehaviorDefinition>)
        ensures
            match r {
                Some(b) => first_behavior_with_id(self.behaviors@, behavior_id@) == Some(*b),
                None => first_behavior_with_id(self.behaviors@, behavior_id@) is None,
            },
    {
        let wanted = behavior_id.to_owned();
        let mut i: usize = 0;
        while i < self.behaviors.len()
            invariant
                wanted@ == behavior_id@,
                i <= self.behaviors.len(),
                first_behavior_with_id(self.behaviors@.subrange(0, i as int), behavior_id@) is None,
            decreases self.behaviors.len() - i,
        {
            assert(self.behaviors@.subrange(0, i + 1).drop_last() =~= self.behaviors@.subrange(0, i as int));
            if self.behaviors[i].id == wanted {
                proof {
                    lemma_first_behavior_extends(self.behaviors@, behavior_id@, i + 1);
                }
                return Some(&self.behaviors[i]);
            }
            i += 1;
        }
        assert(self.behaviors@.subrange(0, i as int) =~= self.behaviors@);
        None
    }

    /// The first top-level entity with the given id.
    pub fn get_entity(&self, entity_id: &str) -> (r: Option<&EntityDefinition>)
        ensures
            match r {
                Some(e) => first_with_id(self.entities@, entity_id@) == Some(*e),
                None => first_with_id(self.entities@, entity_id@) is None,
            },
    {
        let wanted = entity_id.to_owned();
        first_entity_with_id(&self.entities, &wanted)
    }

    /// The entity with the given id anywhere in the scene: the first
    /// top-level one, else the first found below the top-level entities in
    /// turn (among an entity's children first, then below each child).
    pub fn find_entity(&self, entity_id: &str) -> (r: Option<&EntityDefinition>)
        ensures
            match r {
                Some(e) => scene_find(self.entities@, entity_id@) == Some(*e),
                None => scene_find(self.entities@, entity_id@) is None,
            },
    {
        let wanted = entity_id.to_owned();
        match first_entity_with_id(&self.entities, &wanted) {
            Some(e) => Some(e),
            None => find_entity_below_each(&self.entities, &wanted),
        }
    }
}

/// The entity with the given id in a scene whose top-level entities are `s`.
pub open spec fn scene_find(s: Seq<EntityDefinition>, id: Seq<char>) -> Option<EntityDefinition> {
    match first_with_id(s, id) {
        Some(e) => Some(e),
        None => find_below_each(s, id),
    }
}

/// A match in a prefix of `s` is the match in `s`.
proof fn lemma_first_behavior_extends(s: Seq<BehaviorDefinition>, id: Seq<char>, k: int)
    requires
        0 <= k <= s.len(),
        first_behavior_with_id(s.subrange(0, k), id) is Some,
    ensures
        first_behavior_with_id(s, id) == first_behavior_with_id(s.subrange(0, k), id),
    decreases s.len() - k,
{
    if k < s.len() {
        assert(s.subrange(0, k + 1).drop_last() =~= s.subrange(0, k));
        lemma_first_behavior_extends(s, id, k + 1);
    } else {
        assert(s.subrange(0, k) =~= s);
    }
}

/// The last member of `s` whose id is `id`: where ids repeat, a later
/// behavior definition overrides an earlier one when a scene is loaded.
pub open spec fn last_behavior_with_id(s: Seq<BehaviorDefinition>, id: Seq<char>) -> Option<BehaviorDefinition>
    decreases s.len(),
{
    if s.len() == 0 {
        None
    } else if s.last().id@ == id {
        Some(s.last())
    } else {
        last_behavior_with_id(s.drop_last(), id)
    }
}

/// One step of loading a scene, as a value.
pub enum PlannedStep {
    /// Create an entity for this definition
    Create(EntityDefinition),
    /// Add this component to the entity created last
    Add(ComponentDefinition),
}

/// One step of loading a scene into a world.
#[derive(Debug)]
pub enum LoadStep<'a> {
    /// Create an entity for this definition; the components that follow go
    /// to it
    CreateEntity(&'a EntityDefinition),
    /// Add this component to the entity created last
    AddComponent(&'a ComponentDefinition),
}

impl<'a> View for LoadStep<'a> {
    type V = PlannedStep;

    open spec fn view(&self) -> PlannedStep {
        match *self {
            LoadStep::CreateEntity(e) => PlannedStep::Create(*e),
            LoadStep::AddComponent(c) => PlannedStep::Add(*c),
        }
    }
}

/// The steps as values.
pub open spec fn step_values<'a>(steps: Seq<LoadStep<'a>>) -> Seq<PlannedStep> {
    Seq::new(steps.len(), |i: int| steps[i]@)
}

/// Adding each of `cs`, in order.
pub open spec fn add_steps(cs: Seq<ComponentDefinition>) -> Seq<PlannedStep> {
    Seq::new(cs.len(), |i: int| PlannedStep::Add(cs[i]))
}

/// The steps that apply the behaviors `ids` (looked up in `bs`) in order,
/// and the first id that names no behavior, where one does: the steps stop
/// there.
pub open spec fn behavior_plan(ids: Seq<String>, bs: Seq<BehaviorDefinition>) -> (Seq<PlannedStep>, Option<String>)
    decreases ids.len(),
{
    if ids.len() == 0 {
        (Seq::empty(), None)
    } else {
        let (p, missing) = behavior_plan(ids.drop_last(), bs);
        match missing {
            Some(m) => (p, Some(m)),
            None => match last_behavior_with_id(bs, ids.last()@) {
                Some(b) => (p + add_steps(b.components@), None),
                None => (p, Some(ids.last())),
            },
        }
    }
}

/// The steps that load the entity `e` and its descendants: create it, add
/// its own components, then those of its behaviors, then load each child
/// in turn; and the first behavior id that names no behavior, where one
/// does: the steps stop there.
pub open spec fn entity_plan(e: EntityDefinition, bs: Seq<BehaviorDefinition>) -> (Seq<PlannedStep>, Option<String>)
    decreases e, 1nat,
{
    let own = seq![PlannedStep::Create(e)] + add_steps(e.components@);
    let (b, missing) = behavior_plan(e.behaviors@, bs);
    match missing {
        Some(m) => (own + b, Some(m)),
        None => {
            let (c, missing_below) = forest_plan(e.children@, bs);
            (own + b + c, missing_below)
        },
    }
}

/// The steps that load each member of `s` in turn, and the first behavior
/// id that names no behavior, where one does: the steps stop there.
pub open spec fn forest_plan(s: Seq<EntityDefinition>, bs: Seq<BehaviorDefinition>) -> (Seq<PlannedStep>, Option<String>)
    decreases s, 0nat,
{
    if s.len() == 0 {
        (Seq::empty(), None)
    } else {
        let (p, missing) = forest_plan(s.drop_last(), bs);
        match missing {
            Some(m) => (p, Some(m)),
            None => {
                let (q, missing_last) = entity_plan(s.last(), bs);
                (p + q, missing_last)
            },
        }
    }
}

/// What loading a scene does: the steps, in order, and the behavior id that
/// names no behavior, if loading stops on one after the steps.
pub struct ScenePlan<'a> {
    /// The steps, in order
    pub steps: Vec<LoadStep<'a>>,
    /// The behavior id that names no behavior, met after the steps
    pub missing_behavior: Option<String>,
}

/// The last member of `bs` whose id is `id`.
fn last_behavior<'a>(bs: &'a Vec<BehaviorDefinition>, id: &String) -> (r: Option<&'a BehaviorDefinition>)
    ensures
        match r {
            Some(b) => last_behavior_with_id(bs@, id@) == Some(*b),
            None => last_behavior_with_id(bs@, id@) is None,
        },
{
    let mut i: usize = bs.len();
    assert(bs@.subrange(0, i as int) =~= bs@);
    while i > 0
        invariant
            i <= bs.len(),
            last_behavior_with_id(bs@, id@) == last_behavior_with_id(bs@.subrange(0, i as int), id@),
        decreases i,
    {
        assert(bs@.subrange(0, i as int).drop_last() =~= bs@.subrange(0, i - 1));
        if bs[i - 1].id == *id {
            return Some(&bs[i - 1]);
        }
        i -= 1;
    }
    None
}

/// Appends an add step for each of `cs`, in order.
fn push_add_steps<'a>(cs: &'a Vec<ComponentDefinition>, steps: &mut Vec<LoadStep<'a>>)
    ensures
        step_values(final(steps)@) == step_values(old(steps)@) + add_steps(cs@),
{
    let ghost start = step_values(old(steps)@);
    let mut i: usize = 0;
    while i < cs.len()
        invariant
            i <= cs.len(),
            step_values(steps@) == start + add_steps(cs@.subrange(0, i as int)),
        decreases cs.len() - i,
    {
        let ghost before = steps@;
        steps.push(LoadStep::AddComponent(&cs[i]));
        assert(step_values(steps@) =~= step_values(before).push(PlannedStep::Add(cs@[i as int])));
        assert(add_steps(cs@.subrange(0, i + 1)) =~= add_steps(cs@.subrange(0, i as int)).push(PlannedStep::Add(cs@[i as int])));
        i += 1;
    }
    assert(cs@.subrange(0, i as int) =~= cs@);
}

/// Appends the steps of `behavior_plan` and returns its missing id.
fn push_behavior_steps<'a>(ids: &Vec<String>, bs: &'a Vec<BehaviorDefinition>, steps: &mut Vec<LoadStep<'a>>) -> (missing: Option<String>)
    ensures
        step_values(final(steps)@) == step_values(old(steps)@) + behavior_plan(ids@, bs@).0,
        missing == behavior_plan(ids@, bs@).1,
{
    let ghost start = step_values(old(steps)@);
    let mut i: usize = 0;
    while i < ids.len()
        invariant
            i <= ids.len(),
            start == step_values(old(steps)@),
            behavior_plan(ids@.subrange(0, i as int), bs@).1 is None,
            step_values(steps@) == start + behavior_plan(ids@.subrange(0, i as int), bs@).0,
        decreases ids.len() - i,
    {
        assert(ids@.subrange(0, i + 1).drop_last() =~= ids@.subrange(0, i as int));
        match last_behavior(bs, &ids[i]) {
            Some(b) => {
                push_add_steps(&b.components, steps);
                assert(step_values(steps@) =~= start + behavior_plan(ids@.subrange(0, i + 1), bs@).0);
            },
            None => {
                assert(behavior_plan(ids@.subrange(0, i + 1), bs@).0 == behavior_plan(ids@.subrange(0, i as int), bs@).0);
                proof {
                    lemma_behavior_plan_stops(ids@, bs@, i + 1);
                }
                return Some(ids[i].clone());
            },
        }
        i += 1;
    }
    assert(ids@.subrange(0, i as int) =~= ids@);
    None
}

/// Once the behaviors of a prefix of `ids` stop on a missing id, so do
/// those of `ids`, with the same steps.
proof fn lemma_behavior_plan_stops(ids: Seq<String>, bs: Seq<BehaviorDefinition>, k: int)
    requires
        0 <= k <= ids.len(),
        behavior_plan(ids.subrange(0, k), bs).1 is Some,
    ensures
        behavior_plan(ids, bs) == behavior_plan(ids.subrange(0, k), bs),
    decreases ids.len() - k,
{
    if k < ids.len() {
        assert(ids.subrange(0, k + 1).drop_last() =~= ids.subrange(0, k));
        lemma_behavior_plan_stops(ids, bs, k + 1);
    } else {
        assert(ids.subrange(0, k) =~= ids);
    }
}

/// Once a prefix of `s` stops on a missing id, so does `s`, with the same
/// steps.
proof fn lemma_forest_plan_stops(s: Seq<EntityDefinition>, bs: Seq<BehaviorDefinition>, k: int)
    requires
        0 <= k <= s.len(),
        forest_plan(s.subrange(0, k), bs).1 is Some,
    ensures
        forest_plan(s, bs) == forest_plan(s.subrange(0, k), bs),
    decreases s.len() - k,
{
    if k < s.len() {
        assert(s.subrange(0, k + 1).drop_last() =~= s.subrange(0, k));
        lemma_forest_plan_stops(s, bs, k + 1);
    } else {
        assert(s.subrange(0, k) =~= s);
    }
}

/// Appends the steps of `entity_plan` and returns its missing id.
fn push_entity_steps<'a>(e: &'a EntityDefinition, bs: &'a Vec<BehaviorDefinition>, steps: &mut Vec<LoadStep<'a>>) -> (missing: Option<String>)
    ensures
        step_values(final(steps)@) == step_values(old(steps)@) + entity_plan(*e, bs@).0,
        missing == entity_plan(*e, bs@).1,
    decreases *e, 1nat,
{
    let ghost start = step_values(old(steps)@);
    let ghost before = steps@;
    steps.push(LoadStep::CreateEntity(e));
    assert(step_values(steps@) =~= start + seq![PlannedStep::Create(*e)]);
    push_add_steps(&e.components, steps);
    let ghost own = seq![PlannedStep::Create(*e)] + add_steps(e.components@);
    assert(step_values(steps@) =~= start + own);
    let missing = push_behavior_steps(&e.behaviors, bs, steps);
    if missing.is_some() {
        assert(step_values(steps@) =~= start + entity_plan(*e, bs@).0);
        return missing;
    }
    let below = push_forest_steps(&e.children, bs, steps);
    assert(step_values(steps@) =~= start + entity_plan(*e, bs@).0);
    below
}

/// Appends the steps of `forest_plan` and returns its missing id.
fn push_forest_steps<'a>(s: &'a Vec<EntityDefinition>, bs: &'a Vec<BehaviorDefinition>, steps: &mut Vec<LoadStep<'a>>) -> (missing: Option<String>)
    ensures
        step_values(final(steps)@) == step_values(old(steps)@) + forest_plan(s@, bs@).0,
        missing == forest_plan(s@, bs@).1,
    decreases s@, 0nat,
{
    let ghost start = step_values(old(steps)@);
    let mut i: usize = 0;
    while i < s.len()
        invariant
            i <= s.len(),
            start == step_values(old(steps)@),
            forest_plan(s@.subrange(0, i as int), bs@).1 is None,
            step_values(steps@) == start + forest_plan(s@.subrange(0, i as int), bs@).0,
        decreases s.len() - i,
    {
        assert(s@.subrange(0, i + 1).drop_last() =~= s@.subrange(0, i as int));
        assert(s@.subrange(0, i + 1).last() == s@[i as int]);
        proof {
            assert(decreases_to!(s@ => s@[i as int]));
        }
        let missing = push_entity_steps(&s[i], bs, steps);
        assert(step_values(steps@) =~= start + forest_plan(s@.subrange(0, i + 1), bs@).0);
        if missing.is_some() {
            proof {
                lemma_forest_plan_stops(s@, bs@, i + 1);
            }
            return missing;
        }
        i += 1;
    }
    assert(s@.subrange(0, i as int) =~= s@);
    None
}

/// What loading `scene` into a world does: create an entity for each
/// top-level entity definition in turn, add its own components, then the
/// components of each of its behaviors (a behavior id names the last
/// behavior definition with that id), then load its children the same
/// way; loading stops at the first behavior id that names no behavior.
pub fn plan_scene_load<'a>(scene: &'a Scene) -> (r: ScenePlan<'a>)
    ensures
        step_values(r.steps@) == forest_plan(scene.entities@, scene.behaviors@).0,
        r.missing_behavior == forest_plan(scene.entities@, scene.behaviors@).1,
{
    let mut steps: Vec<LoadStep<'a>> = Vec::new();
    assert(step_values(steps@) =~= Seq::<PlannedStep>::empty());
    let missing = push_forest_steps(&scene.entities, &scene.behaviors, &mut steps);
    assert(step_values(steps@) =~= forest_plan(scene.entities@, scene.behaviors@).0);
    ScenePlan { steps, missing_behavior: missing }
}

/// The number of entities the steps create.
pub open spec fn creations(steps: Seq<PlannedStep>) -> nat
    decreases steps.len(),
{
    if steps.len() == 0 {
        0
    } else {
        creations(steps.drop_last()) + if steps.last() is Create {
            1nat
        } else {
            0nat
        }
    }
}

proof fn lemma_creations_concat(a: Seq<PlannedStep>, b: Seq<PlannedStep>)
    ensures
        creations(a + b) == creations(a) + creations(b),
    decreases b.len(),
{
    if b.len() > 0 {
        assert((a + b).drop_last() =~= a + b.drop_last());
        lemma_creations_concat(a, b.drop_last());
    } else {
        assert(a + b =~= a);
    }
}

proof fn lemma_add_steps_create_nothing(cs: Seq<ComponentDefinition>)
    ensures
        creations(add_steps(cs)) == 0,
    decreases cs.len(),
{
    if cs.len() > 0 {
        assert(add_steps(cs).drop_last() =~= add_steps(cs.drop_last()));
        lemma_add_steps_create_nothing(cs.drop_last());
    }
}

proof fn lemma_behaviors_create_nothing(ids: Seq<String>, bs: Seq<BehaviorDefinition>)
    ensures
        creations(behavior_plan(ids, bs).0) == 0,
    decreases ids.len(),
{
    if ids.len() > 0 {
        lemma_behaviors_create_nothing(ids.drop_last(), bs);
        let p = behavior_plan(ids.drop_last(), bs).0;
        if let Some(b) = last_behavior_with_id(bs, ids.last()@) {
            lemma_add_steps_create_nothing(b.components@);
            lemma_creations_concat(p, add_steps(b.components@));
        }
    }
}

/// Loading an entity that names no missing behavior creates exactly the
/// entity and its descendants.
pub proof fn lemma_entity_plan_creates_tree(e: EntityDefinition, bs: Seq<BehaviorDefinition>)
    ensures
        entity_plan(e, bs).1 is None ==> creations(entity_plan(e, bs).0) == entity_total(e),
    decreases e, 1nat,
{
    let own = seq![PlannedStep::Create(e)] + add_steps(e.components@);
    let b = behavior_plan(e.behaviors@, bs).0;
    lemma_add_steps_create_nothing(e.components@);
    lemma_creations_concat(seq![PlannedStep::Create(e)], add_steps(e.components@));
    assert(creations(seq![PlannedStep::Create(e)]) == 1) by {
        let one = seq![PlannedStep::Create(e)];
        assert(one.drop_last() =~= Seq::<PlannedStep>::empty());
        assert(one.last() is Create);
        assert(creations(one.drop_last()) == 0);
    }
    lemma_behaviors_create_nothing(e.behaviors@, bs);
    lemma_creations_concat(own, b);
    if behavior_plan(e.behaviors@, bs).1 is None {
        let c = forest_plan(e.children@, bs).0;
        lemma_forest_plan_creates_trees(e.children@, bs);
        lemma_creations_concat(own + b, c);
    }
}

/// Loading a forest that names no missing behavior creates exactly the
/// entities of its trees: as many as `Scene::total_entity_count` counts.
pub proof fn lemma_forest_plan_creates_trees(s: Seq<EntityDefinition>, bs: Seq<BehaviorDefinition>)
    ensures
        forest_plan(s, bs).1 is None ==> creations(forest_plan(s, bs).0) == forest_entity_total(s),
    decreases s, 0nat,
{
    if s.len() > 0 {
        lemma_forest_plan_creates_trees(s.drop_last(), bs);
        if forest_plan(s.drop_last(), bs).1 is None {
            lemma_entity_plan_creates_tree(s.last(), bs);
            lemma_creations_concat(forest_plan(s.drop_last(), bs).0, entity_plan(s.last(), bs).0);
        }
    }
}

/// Whether some member of `s` has the id `id`.
pub open spec fn top_has_id(s: Seq<EntityDefinition>, id: Seq<char>) -> bool {
    exists|i: int| 0 <= i < s.len() && (#[trigger] s[i]).id@ == id
}

/// Whether some entity of the trees rooted at the members of `s` has the
/// id `id`.
pub open spec fn forest_has_id(s: Seq<EntityDefinition>, id: Seq<char>) -> bool
    decreases s, 0nat,
{
    if s.len() == 0 {
        false
    } else {
        forest_has_id(s.drop_last(), id) || entity_has_id(s.last(), id)
    }
}

/// Whether `e` or one of its descendants has the id `id`.
pub open spec fn entity_has_id(e: EntityDefinition, id: Seq<char>) -> bool
    decreases e, 1nat,
{
    e.id@ == id || forest_has_id(e.children@, id)
}

/// Whether some descendant of a member of `s` has the id `id`.
pub open spec fn below_has_id(s: Seq<EntityDefinition>, id: Seq<char>) -> bool
    decreases s.len(),
{
    if s.len() == 0 {
        false
    } else {
        below_has_id(s.drop_last(), id) || forest_has_id(s.last().children@, id)
    }
}

proof fn lemma_first_with_id(s: Seq<EntityDefinition>, id: Seq<char>)
    ensures
        first_with_id(s, id) is Some <==> top_has_id(s, id),
        first_with_id(s, id) matches Some(x) ==> x.id@ == id,
    decreases s.len(),
{
    if s.len() > 0 {
        let d = s.drop_last();
        lemma_first_with_id(d, id);
        if top_has_id(d, id) {
            let i = choose|i: int| 0 <= i < d.len() && (#[trigger] d[i]).id@ == id;
            assert(s[i] == d[i]);
        }
        if top_has_id(s, id) && !top_has_id(d, id) {
            let i = choose|i: int| 0 <= i < s.len() && (#[trigger] s[i]).id@ == id;
            if i < d.len() {
                assert(d[i] == s[i]);
            }
        }
        if s.last().id@ == id {
            assert(s[s.len() - 1].id@ == id);
        }
    }
}

proof fn lemma_forest_has_split(s: Seq<EntityDefinition>, id: Seq<char>)
    ensures
        forest_has_id(s, id) <==> top_has_id(s, id) || below_has_id(s, id),
    decreases s.len(),
{
    if s.len() > 0 {
        let d = s.drop_last();
        lemma_forest_has_split(d, id);
        assert(entity_has_id(s.last(), id) == (s.last().id@ == id || forest_has_id(s.last().children@, id)));
        assert(below_has_id(s, id) == (below_has_id(d, id) || forest_has_id(s.last().children@, id)));
        assert(forest_has_id(s, id) == (forest_has_id(d, id) || entity_has_id(s.last(), id)));
        if top_has_id(d, id) {
            let i = choose|i: int| 0 <= i < d.len() && (#[trigger] d[i]).id@ == id;
            assert(s[i] == d[i]);
        }
        if top_has_id(s, id) && !top_has_id(d, id) {
            let i = choose|i: int| 0 <= i < s.len() && (#[trigger] s[i]).id@ == id;
            if i < d.len() {
                assert(d[i] == s[i]);
            }
        }
        if s.last().id@ == id {
            assert(s[s.len() - 1].id@ == id);
        }
    }
}

proof fn lemma_find_below(e: EntityDefinition, id: Seq<char>)
    ensures
        find_below(e, id) is Some <==> forest_has_id(e.children@, id),
        find_below(e, id) matches Some(x) ==> x.id@ == id,
    decreases e, 1nat,
{
    lemma_first_with_id(e.children@, id);
    lemma_find_below_each(e.children@, id);
    lemma_forest_has_split(e.children@, id);
}

proof fn lemma_find_below_each(s: Seq<EntityDefinition>, id: Seq<char>)
    ensures
        find_below_each(s, id) is Some <==> below_has_id(s, id),
        find_below_each(s, id) matches Some(x) ==> x.id@ == id,
    decreases s, 0nat,
{
    if s.len() > 0 {
        lemma_find_below_each(s.drop_last(), id);
        lemma_find_below(s.last(), id);
    }
}

/// `Scene::find_entity` finds an entity exactly when some entity of the
/// scene, at any depth, has the requested id, and what it finds has that id.
pub proof fn lemma_scene_find_sound_and_complete(s: Seq<EntityDefinition>, id: Seq<char>)
    ensures
        scene_find(s, id) is Some <==> forest_has_id(s, id),
        scene_find(s, id) matches Some(x) ==> x.id@ == id,
{
    lemma_first_with_id(s, id);
    lemma_find_below_each(s, id);
    lemma_forest_has_split(s, id);
}

/// JSON schema of a component definition.
pub const COMPONENT_DEFINITION_SCHEMA: &'static str = r#"{
  "$schema": "http://json-schema.org/draft-07/schema#",
  "type": "object",
  "title": "ComponentDefinition",
  "properties": {
    "type": { "type": "string" },
    "data": { "type": "object" }
  },
  "required": ["type", "data"],
  "additionalProperties": false
}"#;

/// JSON schema of a behavior definition.
pub const BEHAVIOR_DEFINITION_SCHEMA: &'static str = r#"{
  "$schema": "http://json-schema.org/draft-07/schema#",
  "type": "object",
  "title": "BehaviorDefinition",
  "properties": {
    "id": { "type": "string" },
    "name": { "type": "string" },
    "description": { "type": "string" },
    "components": { "type": "array" }
  },
  "required": ["id", "name", "components"],
  "additionalProperties": false
}"#;

/// JSON schema of a entity definition.
pub const ENTITY_DEFINITION_SCHEMA: &'static str = r#"{
  "$schema": "http://json-schema.org/draft-07/schema#",
  "type": "object",
  "title": "EntityDefinition",
  "properties": {
    "id": { "type": "string" },
    "name": { "type": "string" },
    "components": { "type": "array" },
    "behaviors": { "type": "array" },
    "children": { "type": "array" }
  },
  "additionalProperties": false
}"#;

/// JSON schema of a scene.
pub const SCENE_SCHEMA: &'static str = r#"{
  "$schema": "http://json-schema.org/draft-07/schema#",
  "type": "object",
  "title": "Scene",
  "properties": {
    "id": { "type": "string" },
    "name": { "type": "string" },
    "version": { "type": "string" },
    "metadata": { "type": "object" },
    "entities": { "type": "array" },
    "behaviors": { "type": "array" }
  },
  "required": ["id", "entities"],
  "additionalProperties": false
}"#;


/// Errors that can occur while loading a scene
#[derive(Clone, Debug, PartialEq)]
pub enum SceneLoaderError {
    /// Invalid JSON format
    InvalidJson(String),
    /// Scene validation failed
    ValidationError(String),
    /// Referenced entity not found
    EntityNotFound(String),
    /// Referenced behavior not found
    BehaviorNotFound(String),
    /// Component type not registered
    ComponentNotRegistered(String),
    /// Failed to create component from data
    ComponentCreationFailed(String),
    /// Invalid metadata
    InvalidMetadata(String),
}

/// The human-readable message of an error.
pub open spec fn error_message(e: SceneLoaderError) -> Seq<char> {
    match e {
        SceneLoaderError::InvalidJson(msg) => "Invalid JSON: "@ + msg@,
        SceneLoaderError::ValidationError(msg) => "Validation error: "@ + msg@,
        SceneLoaderError::EntityNotFound(id) => "Entity '"@ + id@ + "' not found"@,
        SceneLoaderError::BehaviorNotFound(id) => "Behavior '"@ + id@ + "' not found"@,
        SceneLoaderError::ComponentNotRegistered(t) => "Component type '"@ + t@ + "' not registered"@,
        SceneLoaderError::ComponentCreationFailed(msg) => "Component creation failed: "@ + msg@,
        SceneLoaderError::InvalidMetadata(msg) => "Invalid metadata: "@ + msg@,
    }
}

/// `prefix`, then `middle`, then `suffix`.
fn framed(prefix: &str, middle: &String, suffix: &str) -> (r: String)
    ensures
        r@ == prefix@ + middle@ + suffix@,
{
    let mut s = String::from_str(prefix);
    s.append(middle.as_str());
    s.append(suffix);
    s
}

impl SceneLoaderError {
    /// The human-readable message of this error.
    pub fn to_string(&self) -> (r: String)
        ensures
            r@ == error_message(*self),
    {
        let r = match self {
            SceneLoaderError::InvalidJson(msg) => framed("Invalid JSON: ", msg, ""),
            SceneLoaderError::ValidationError(msg) => framed("Validation error: ", msg, ""),
            SceneLoaderError::EntityNotFound(id) => framed("Entity '", id, "' not found"),
            SceneLoaderError::BehaviorNotFound(id) => framed("Behavior '", id, "' not found"),
            SceneLoaderError::ComponentNotRegistered(t) => framed("Component type '", t, "' not registered"),
            SceneLoaderError::ComponentCreationFailed(msg) => framed("Component creation failed: ", msg, ""),
            SceneLoaderError::InvalidMetadata(msg) => framed("Invalid metadata: ", msg, ""),
        };
        proof {
            reveal_strlit("");
        }
        assert(r@ =~= error_message(*self));
        r
    }
}

/// The factory that creates the built-in component types.
#[derive(Clone, Copy, Debug)]
pub struct DefaultComponentFactory;

/// The component types the default factory creates.
pub open spec fn is_built_in_component(t: Seq<char>) -> bool {
    t == "Velocity"@ || t == "Acceleration"@ || t == "Transform"@ || t == "PhysicsMaterial"@
}

impl DefaultComponentFactory {
    /// Creates a new DefaultComponentFactory
    pub fn new() -> (r: Self) {
        Self
    }

    /// Whether this factory creates components of the given type.
    pub fn can_create(&self, component_type: &str) -> (r: bool)
        ensures
            r == is_built_in_component(component_type@),
    {
        let t = component_type.to_owned();
        t == String::from_str("Velocity") || t == String::from_str("Acceleration") || t == String::from_str(
            "Transform",
        ) || t == String::from_str("PhysicsMaterial")
    }
}

impl Default for DefaultComponentFactory {
    fn default() -> (r: Self) {
        Self::new()
    }
}

/// Result of loading a scene
#[derive(Debug)]
pub struct SceneLoadResult {
    /// Number of entities created
    pub entity_count: usize,
    /// Mapping from scene entity ID to ECS EntityId
    pub entity_map: BTreeMap<String, EntityId>,
}

} // verus!
