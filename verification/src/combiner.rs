//! Combining many primitives into few. Primitives that share an attribute
//! layout, a material, a mode and whether they are indexed are accumulated
//! into one builder; the combined model has one primitive per builder.
//! Materials are known here by the number they were canonicalized to, so
//! equal materials share a number.
use vstd::prelude::*;
use crate::attribute::Attribute;
use crate::gltf_constants::{Mode, Type};
use crate::scene::{
    semantic_index, lemma_semantic_index_found, appended, append_outcome, empty_builder, is_key_of, semantic_eq, AppendError, AttributeKey,
    PrimitiveBuilder,
};
use crate::semantic::Semantic;
use crate::text::str_equal;

verus! {

/// What makes primitives combinable: their attribute layout, their
/// material, their mode, and whether they are indexed.
#[derive(Debug)]
pub struct PrimitiveKey {
    /// The canonical number of the material, if the primitive has one.
    pub material: Option<u64>,
    pub mode: Mode,
    /// The attribute keys, in semantic order.
    pub attributes: Vec<AttributeKey>,
    pub indexed: bool,
}

/// Whether two element types are the same.
pub open spec fn same_type(a: Type, b: Type) -> bool {
    match (a, b) {
        (Type::Other(x), Type::Other(y)) => x@ == y@,
        _ => a == b,
    }
}

/// Whether an attribute key describes `attribute` under `semantic`.
pub open spec fn key_describes(key: AttributeKey, semantic: Semantic, attribute: Attribute) -> bool {
    &&& key.semantic@ == semantic@
    &&& key.component_type == attribute.component_type
    &&& same_type(key.element_type, attribute.element_type)
    &&& key.normalized == attribute.normalized
}

/// Whether two attribute keys are the same.
pub open spec fn same_attribute_key(a: AttributeKey, b: AttributeKey) -> bool {
    &&& a.semantic@ == b.semantic@
    &&& a.component_type == b.component_type
    &&& same_type(a.element_type, b.element_type)
    &&& a.normalized == b.normalized
}

/// Whether two primitive keys are the same.
pub open spec fn same_primitive_key(a: PrimitiveKey, b: PrimitiveKey) -> bool {
    &&& a.material == b.material
    &&& a.mode == b.mode
    &&& a.indexed == b.indexed
    &&& a.attributes@.len() == b.attributes@.len()
    &&& forall|k: int|
        0 <= k < a.attributes@.len() ==> #[trigger] same_attribute_key(
            a.attributes@[k],
            b.attributes@[k],
        )
}

/// Whether `key` is the key of a primitive with these attributes (in
/// semantic order), indices or none, material and mode.
pub open spec fn key_matches(
    key: PrimitiveKey,
    attributes: Seq<(Semantic, Attribute)>,
    indexed: bool,
    material: Option<u64>,
    mode: Mode,
) -> bool {
    &&& key.material == material
    &&& key.mode == mode
    &&& key.indexed == indexed
    &&& key.attributes@.len() == attributes.len()
    &&& forall|k: int|
        0 <= k < attributes.len() ==> #[trigger] key_describes(
            key.attributes@[k],
            attributes[k].0,
            attributes[k].1,
        )
}

/// Whether a builder collects exactly the semantics of its key, one buffer
/// each.
pub open spec fn builder_for_key(entry: (PrimitiveKey, PrimitiveBuilder)) -> bool {
    &&& entry.1.semantics@.len() == entry.0.attributes@.len()
    &&& entry.1.attribute_buffers@.len() == entry.0.attributes@.len()
    &&& forall|k: int|
        0 <= k < entry.0.attributes@.len() ==> #[trigger] entry.1.semantics@[k]
            == entry.0.attributes@[k].semantic
}

/// Whether two element types are the same.
pub fn type_eq(a: &Type, b: &Type) -> (r: bool)
    ensures
        r == same_type(*a, *b),
{
    match (a, b) {
        (Type::Scalar, Type::Scalar) => true,
        (Type::Vec2, Type::Vec2) => true,
        (Type::Vec3, Type::Vec3) => true,
        (Type::Vec4, Type::Vec4) => true,
        (Type::Mat2, Type::Mat2) => true,
        (Type::Mat3, Type::Mat3) => true,
        (Type::Mat4, Type::Mat4) => true,
        (Type::Other(x), Type::Other(y)) => str_equal(x.as_str(), y.as_str()),
        _ => false,
    }
}

/// Whether two attribute keys are the same.
pub fn attribute_key_eq(a: &AttributeKey, b: &AttributeKey) -> (r: bool)
    ensures
        r == same_attribute_key(*a, *b),
{
    semantic_eq(&a.semantic, &b.semantic) && a.component_type == b.component_type && type_eq(
        &a.element_type,
        &b.element_type,
    ) && a.normalized == b.normalized
}

/// Whether two primitive keys are the same.
pub fn primitive_key_eq(a: &PrimitiveKey, b: &PrimitiveKey) -> (r: bool)
    ensures
        r == same_primitive_key(*a, *b),
{
    let same_material = match (a.material, b.material) {
        (Some(x), Some(y)) => x == y,
        (None, None) => true,
        _ => false,
    };
    if !same_material || a.mode != b.mode || a.indexed != b.indexed || a.attributes.len()
        != b.attributes.len() {
        return false;
    }
    let n = a.attributes.len();
    let mut k: usize = 0;
    while k < n
        invariant
            n == a.attributes@.len(),
            n == b.attributes@.len(),
            k <= n,
            forall|m: int| 0 <= m < k ==> #[trigger] same_attribute_key(a.attributes@[m], b.attributes@[m]),
        decreases n - k,
    {
        if !attribute_key_eq(&a.attributes[k], &b.attributes[k]) {
            return false;
        }
        k = k + 1;
    }
    true
}

/// Accumulates the static primitives of many models, one builder per
/// distinct primitive key, in the order the keys were first met.
#[derive(Debug)]
pub struct Combiner {
    pub static_prims: Vec<(PrimitiveKey, PrimitiveBuilder)>,
}

impl Combiner {
    /// Each builder collects its key's semantics, and no key occurs twice.
    pub open spec fn wf(&self) -> bool {
        &&& forall|i: int|
            0 <= i < self.static_prims@.len() ==> builder_for_key(#[trigger] self.static_prims@[i])
        &&& forall|i: int, j: int|
            0 <= i < j < self.static_prims@.len() ==> !same_primitive_key(
                #[trigger] self.static_prims@[i].0,
                #[trigger] self.static_prims@[j].0,
            )
    }

    /// A combiner that holds nothing yet.
    pub fn new() -> (r: Combiner)
        ensures
            r.wf(),
            r.static_prims@.len() == 0,
    {
        Combiner { static_prims: Vec::new() }
    }

    /// Adds a primitive, given by its attributes in semantic order (with
    /// positions, normals and tangents already in the combined frame), its
    /// indices, its material's canonical number and its mode. It goes to
    /// the builder whose key it has; where there is none, a builder for its
    /// key is added after the others first. The builder answers as
    /// `PrimitiveBuilder::append` does, and is left as it was on an error.
    pub fn add_static_mesh_prim(
        &mut self,
        attributes: &[(Semantic, Attribute)],
        indices: Option<&Attribute>,
        material: Option<u64>,
        mode: Mode,
    ) -> (r: Result<(), AppendError>)
        requires
            old(self).wf(),
            indices matches Some(idx) ==> (idx.component_type is UnsignedShort ==> idx.data@.len() % 2
                == 0) && (idx.component_type is UnsignedInt ==> idx.data@.len() % 4 == 0),
        ensures
            final(self).wf(),
            forall|i: int|
                0 <= i < old(self).static_prims@.len() && key_matches(
                    #[trigger] old(self).static_prims@[i].0,
                    attributes@,
                    indices is Some,
                    material,
                    mode,
                ) ==> {
                    &&& final(self).static_prims@.len() == old(self).static_prims@.len()
                    &&& forall|j: int|
                        0 <= j < old(self).static_prims@.len() && j != i
                            ==> #[trigger] final(self).static_prims@[j] == old(self).static_prims@[j]
                    &&& final(self).static_prims@[i].0 == old(self).static_prims@[i].0
                    &&& r == append_outcome(old(self).static_prims@[i].1@, attributes@, indices)
                    &&& r is Err ==> final(self).static_prims@[i].1 == old(self).static_prims@[i].1
                    &&& r is Ok ==> appended(
                        old(self).static_prims@[i].1@,
                        final(self).static_prims@[i].1@,
                        attributes@,
                        indices,
                    )
                },
            (forall|i: int|
                0 <= i < old(self).static_prims@.len() ==> !key_matches(
                    #[trigger] old(self).static_prims@[i].0,
                    attributes@,
                    indices is Some,
                    material,
                    mode,
                )) ==> {
                let n = old(self).static_prims@.len();
                let added = final(self).static_prims@[n as int];
                let fresh = empty_builder(Seq::new(attributes@.len(), |k: int| attributes@[k].0));
                &&& final(self).static_prims@.len() == n + 1
                &&& forall|j: int|
                    0 <= j < n ==> #[trigger] final(self).static_prims@[j]
                        == old(self).static_prims@[j]
                &&& added.0.material == material
                &&& added.0.mode == mode
                &&& added.0.indexed == indices is Some
                &&& added.0.attributes@.len() == attributes@.len()
                &&& forall|k: int|
                    0 <= k < attributes@.len() ==> is_key_of(
                        #[trigger] added.0.attributes@[k],
                        attributes@[k].0,
                        attributes@[k].1,
                    )
                &&& r == append_outcome(fresh, attributes@, indices)
                &&& r is Err ==> added.1@ == fresh
                &&& r is Ok ==> appended(fresh, added.1@, attributes@, indices)
            },
    {
        let key = PrimitiveKey {
            material,
            mode,
            attributes: PrimitiveBuilder::attributes_key(attributes),
            indexed: indices.is_some(),
        };
        proof {
            lemma_matches_iff_same(key, attributes@, indices is Some, material, mode);
        }
        let n = self.static_prims.len();
        let mut pos: usize = 0;
        let mut found = false;
        while pos < n && !found
            invariant
                n == self.static_prims@.len(),
                pos <= n,
                found ==> pos > 0 && same_primitive_key(self.static_prims@[pos - 1].0, key),
                !found ==> forall|j: int|
                    0 <= j < pos ==> !same_primitive_key(#[trigger] self.static_prims@[j].0, key),
            decreases n - pos + if found {
                0int
            } else {
                1int
            },
        {
            if primitive_key_eq(&self.static_prims[pos].0, &key) {
                found = true;
            }
            pos = pos + 1;
        }
        let ghost before = self.static_prims@;
        if found {
            let at = pos - 1;
            proof {
                assert(key_matches(before[at as int].0, attributes@, indices is Some, material, mode));
                assert forall|i: int|
                    0 <= i < n && key_matches(
                        #[trigger] before[i].0,
                        attributes@,
                        indices is Some,
                        material,
                        mode,
                    ) implies i == at by {
                    if i != at {
                        lemma_same_key_symmetric(before[at as int].0, key);
                        lemma_same_key_transitive(before[i].0, key, before[at as int].0);
                        if i < at {
                            assert(!same_primitive_key(before[i].0, before[at as int].0));
                        } else {
                            lemma_same_key_symmetric(before[i].0, before[at as int].0);
                            assert(!same_primitive_key(before[at as int].0, before[i].0));
                        }
                    }
                }
            }
            let (k, mut b) = self.static_prims.remove(at);
            let r = b.append(attributes, indices);
            self.static_prims.insert(at, (k, b));
            proof {
                assert forall|j: int| 0 <= j < n && j != at implies #[trigger] self.static_prims@[j]
                    == before[j] by {}
                assert(forall|i: int| 0 <= i < n ==> #[trigger] self.static_prims@[i].0 == before[i].0);
                assert(builder_for_key(self.static_prims@[at as int]));
            }
            r
        } else {
            proof {
                assert forall|i: int|
                    0 <= i < n implies !key_matches(
                        #[trigger] before[i].0,
                        attributes@,
                        indices is Some,
                        material,
                        mode,
                    ) by {
                    assert(!same_primitive_key(before[i].0, key));
                }
            }
            let mut b = PrimitiveBuilder::new(&key.attributes);
            let ghost fresh = b@;
            proof {
                assert(fresh.semantics =~= Seq::new(attributes@.len(), |k: int| attributes@[k].0));
            }
            let r = b.append(attributes, indices);
            self.static_prims.push((key, b));
            proof {
                assert forall|i: int, j: int|
                    0 <= i < j < self.static_prims@.len() implies !same_primitive_key(
                    #[trigger] self.static_prims@[i].0,
                    #[trigger] self.static_prims@[j].0,
                ) by {
                    if j == n {
                        assert(self.static_prims@[i] == before[i]);
                    } else {
                        assert(self.static_prims@[i] == before[i]);
                        assert(self.static_prims@[j] == before[j]);
                    }
                }
                assert forall|i: int| 0 <= i < self.static_prims@.len() implies builder_for_key(
                    #[trigger] self.static_prims@[i],
                ) by {
                    if i < n {
                        assert(self.static_prims@[i] == before[i]);
                    }
                }
            }
            r
        }
    }

    /// The combined primitives, one per builder in the combiner's order:
    /// the attributes of its key over all vertices collected (each with
    /// the buffer collected for its semantic), its 32-bit
    /// indices when its key is indexed, and its key's material and mode.
    pub fn into_primitives(&self) -> (r: Vec<CombinedPrimitive>)
        requires
            self.wf(),
        ensures
            r@.len() == self.static_prims@.len(),
            forall|i: int|
                0 <= i < r@.len() ==> {
                    let (key, b) = self.static_prims@[i];
                    let p = #[trigger] r@[i];
                    &&& p.material == key.material
                    &&& p.mode == key.mode
                    &&& p.attributes@.len() == key.attributes@.len()
                    &&& forall|k: int|
                        0 <= k < key.attributes@.len() ==> {
                            &&& (#[trigger] p.attributes@[k]).0 == key.attributes@[k].semantic
                            &&& p.attributes@[k].1.component_type == key.attributes@[k].component_type
                            &&& p.attributes@[k].1.element_type == key.attributes@[k].element_type
                            &&& p.attributes@[k].1.normalized == key.attributes@[k].normalized
                            &&& p.attributes@[k].1.count == b.vertex_count
                            &&& p.attributes@[k].1.data@ == b.attribute_buffers@[semantic_index(
                                b.semantics@,
                                key.attributes@[k].semantic,
                            ).unwrap()]@
                        }
                    &&& key.indexed ==> (p.indices matches Some(a) && a.component_type
                        == crate::gltf_constants::ComponentType::UnsignedInt && a.element_type
                        == Type::Scalar && !a.normalized && a.count == b.index_count && a.data@
                        == b.index_buffer@)
                    &&& !key.indexed ==> p.indices is None
                },
    {
        let mut out: Vec<CombinedPrimitive> = Vec::new();
        let mut i: usize = 0;
        while i < self.static_prims.len()
            invariant
                self.wf(),
                i <= self.static_prims@.len(),
                out@.len() == i,
                forall|m: int|
                    0 <= m < i ==> {
                        let (key, b) = self.static_prims@[m];
                        let p = #[trigger] out@[m];
                        &&& p.material == key.material
                        &&& p.mode == key.mode
                        &&& p.attributes@.len() == key.attributes@.len()
                        &&& forall|k: int|
                            0 <= k < key.attributes@.len() ==> {
                                &&& (#[trigger] p.attributes@[k]).0 == key.attributes@[k].semantic
                                &&& p.attributes@[k].1.component_type
                                    == key.attributes@[k].component_type
                                &&& p.attributes@[k].1.element_type
                                    == key.attributes@[k].element_type
                                &&& p.attributes@[k].1.normalized == key.attributes@[k].normalized
                                &&& p.attributes@[k].1.count == b.vertex_count
                                &&& p.attributes@[k].1.data@ == b.attribute_buffers@[semantic_index(
                                b.semantics@,
                                key.attributes@[k].semantic,
                            ).unwrap()]@
                            }
                        &&& key.indexed ==> (p.indices matches Some(a) && a.component_type
                            == crate::gltf_constants::ComponentType::UnsignedInt && a.element_type
                            == Type::Scalar && !a.normalized && a.count == b.index_count
                            && a.data@ == b.index_buffer@)
                        &&& !key.indexed ==> p.indices is None
                    },
            decreases self.static_prims@.len() - i,
        {
            let entry = &self.static_prims[i];
            proof {
                assert(builder_for_key(self.static_prims@[i as int]));
                let (key, b) = self.static_prims@[i as int];
                assert forall|k: int| 0 <= k < key.attributes@.len() implies semantic_index(
                    b.semantics@,
                    (#[trigger] key.attributes@[k]).semantic,
                ) is Some by {
                    lemma_semantic_index_found(b.semantics@, key.attributes@[k].semantic, k);
                }
            }
            let (attributes, indices) = entry.1.to_primitive(entry.0.attributes.as_slice(), entry.0.indexed);
            out.push(
                CombinedPrimitive { attributes, indices, material: entry.0.material, mode: entry.0.mode },
            );
            i = i + 1;
        }
        out
    }
}

/// A primitive of the combined model.
#[derive(Debug)]
pub struct CombinedPrimitive {
    pub attributes: Vec<(Semantic, Attribute)>,
    pub indices: Option<Attribute>,
    pub material: Option<u64>,
    pub mode: Mode,
}

/// `same_primitive_key` is symmetric.
proof fn lemma_same_key_symmetric(a: PrimitiveKey, b: PrimitiveKey)
    requires
        same_primitive_key(a, b),
    ensures
        same_primitive_key(b, a),
{
    assert forall|k: int| 0 <= k < b.attributes@.len() implies #[trigger] same_attribute_key(
        b.attributes@[k],
        a.attributes@[k],
    ) by {
        assert(same_attribute_key(a.attributes@[k], b.attributes@[k]));
    }
}

/// `same_primitive_key` is transitive.
proof fn lemma_same_key_transitive(a: PrimitiveKey, b: PrimitiveKey, c: PrimitiveKey)
    requires
        same_primitive_key(a, b),
        same_primitive_key(b, c),
    ensures
        same_primitive_key(a, c),
{
    assert forall|k: int| 0 <= k < a.attributes@.len() implies #[trigger] same_attribute_key(
        a.attributes@[k],
        c.attributes@[k],
    ) by {
        assert(same_attribute_key(a.attributes@[k], b.attributes@[k]));
        assert(same_attribute_key(b.attributes@[k], c.attributes@[k]));
    }
}

/// A key matches a primitive exactly when it is the same as the key made
/// from that primitive.
proof fn lemma_matches_iff_same(
    key: PrimitiveKey,
    attributes: Seq<(Semantic, Attribute)>,
    indexed: bool,
    material: Option<u64>,
    mode: Mode,
)
    requires
        key.material == material,
        key.mode == mode,
        key.indexed == indexed,
        key.attributes@.len() == attributes.len(),
        forall|k: int|
            0 <= k < attributes.len() ==> is_key_of(
                #[trigger] key.attributes@[k],
                attributes[k].0,
                attributes[k].1,
            ),
    ensures
        forall|other: PrimitiveKey|
            #[trigger] same_primitive_key(other, key) <==> key_matches(
                other,
                attributes,
                indexed,
                material,
                mode,
            ),
{
    assert forall|other: PrimitiveKey|
        #[trigger] same_primitive_key(other, key) <==> key_matches(
            other,
            attributes,
            indexed,
            material,
            mode,
        ) by {
        if same_primitive_key(other, key) {
            assert forall|k: int| 0 <= k < attributes.len() implies #[trigger] key_describes(
                other.attributes@[k],
                attributes[k].0,
                attributes[k].1,
            ) by {
                assert(same_attribute_key(other.attributes@[k], key.attributes@[k]));
                assert(is_key_of(key.attributes@[k], attributes[k].0, attributes[k].1));
            }
        }
        if key_matches(other, attributes, indexed, material, mode) {
            assert forall|k: int| 0 <= k < other.attributes@.len() implies #[trigger] same_attribute_key(
                other.attributes@[k],
                key.attributes@[k],
            ) by {
                assert(key_describes(other.attributes@[k], attributes[k].0, attributes[k].1));
                assert(is_key_of(key.attributes@[k], attributes[k].0, attributes[k].1));
            }
        }
    }
}

/// The numbers the materials of a combined model get: each canonical
/// material is numbered when it is first met, in the order met.
pub struct MaterialNumbering {
    /// The number of each canonical material, once it has one.
    pub assigned: Vec<Option<u32>>,
    /// How many materials are numbered.
    pub count: u32,
}

/// Whether some material has number `k`.
pub open spec fn is_number_of_some(assigned: Seq<Option<u32>>, k: u32) -> bool {
    exists|m: int| 0 <= m < assigned.len() && #[trigger] assigned[m] == Some(k)
}

impl MaterialNumbering {
    /// The numbers handed out are `0..count`, each to exactly one
    /// material.
    pub open spec fn wf(&self) -> bool {
        &&& forall|m: int| 0 <= m < self.assigned@.len() ==> (#[trigger] self.assigned@[m] matches Some(k)
            ==> k < self.count)
        &&& forall|m: int, n: int|
            0 <= m < n < self.assigned@.len() && #[trigger] self.assigned@[m] is Some
                && #[trigger] self.assigned@[n] is Some ==> self.assigned@[m] != self.assigned@[n]
        &&& forall|k: u32| k < self.count ==> #[trigger] is_number_of_some(self.assigned@, k)
    }

    /// No material of `n` canonical ones numbered yet.
    pub fn new(n: usize) -> (r: MaterialNumbering)
        ensures
            r.wf(),
            r.count == 0,
            r.assigned@ == Seq::new(n as nat, |_m: int| None::<u32>),
    {
        let mut assigned: Vec<Option<u32>> = Vec::new();
        let mut i: usize = 0;
        while i < n
            invariant
                i <= n,
                assigned@ == Seq::new(i as nat, |_m: int| None::<u32>),
            decreases n - i,
        {
            assigned.push(None);
            i = i + 1;
            assert(assigned@ =~= Seq::new(i as nat, |_m: int| None::<u32>));
        }
        MaterialNumbering { assigned, count: 0 }
    }

    /// The number of canonical material `id`, and whether it was first met
    /// now: a material met before keeps its number; one met for the first
    /// time gets the next number.
    pub fn number(&mut self, id: usize) -> (r: (u32, bool))
        requires
            old(self).wf(),
            id < old(self).assigned@.len(),
            old(self).count < u32::MAX,
        ensures
            final(self).wf(),
            match old(self).assigned@[id as int] {
                Some(k) => r == (k, false) && *final(self) == *old(self),
                None => {
                    &&& r == (old(self).count, true)
                    &&& final(self).count == old(self).count + 1
                    &&& final(self).assigned@ == old(self).assigned@.update(
                        id as int,
                        Some(old(self).count),
                    )
                },
            },
    {
        match self.assigned[id] {
            Some(k) => (k, false),
            None => {
                let k = self.count;
                let ghost before = self.assigned@;
                self.assigned.set(id, Some(k));
                self.count = k + 1;
                proof {
                    let after = self.assigned@;
                    assert forall|m: int| 0 <= m < after.len() implies (#[trigger] after[m] matches Some(
                        j,
                    ) ==> j < self.count) by {
                        if m != id {
                            assert(after[m] == before[m]);
                        }
                    }
                    assert forall|m: int, n: int|
                        0 <= m < n < after.len() && #[trigger] after[m] is Some
                            && #[trigger] after[n] is Some implies after[m] != after[n] by {
                        if m != id as int && n != id as int {
                            assert(after[m] == before[m] && after[n] == before[n]);
                        } else if m == id as int {
                            assert(after[n] == before[n]);
                            assert(before[n] matches Some(j) ==> j < k);
                        } else {
                            assert(after[m] == before[m]);
                            assert(before[m] matches Some(j) ==> j < k);
                        }
                    }
                    assert forall|j: u32| j < self.count implies #[trigger] is_number_of_some(after, j) by {
                        if j == k {
                            assert(after[id as int] == Some(j));
                        } else {
                            assert(is_number_of_some(before, j));
                            let m = choose|m: int| 0 <= m < before.len() && #[trigger] before[m] == Some(j);
                            assert(m != id as int);
                            assert(after[m] == Some(j));
                        }
                    }
                }
                (k, true)
            },
        }
    }
}

} // verus!
