use crate::codec::{after, cons, lemma_after_cons, lemma_after_empty};
use crate::components::as_view;
use crate::data_component::{
    added_count, dec_stack, decode_stack, empty_stack_view, enc_stack, is_empty_view, item_component_counts,
    lemma_stack_view_patch, patch_view, removed_count, stack_writable, write_stack,
};
use crate::error::{ReadingError, WritingError};
use crate::item::{ComponentView, DataComponent, Item, ItemRegistry, ItemStack, ItemStackView};
use crate::ser::{Deserializer, read_bool, read_bool_at, read_i32, read_i32_at};
use crate::var_int::{VarInt, decode_var_int, read_var_int};
use vstd::prelude::*;

verus! {

/// A stack as it crosses the network.
#[derive(Debug)]
pub struct ItemStackSerializer(pub ItemStack);

impl ItemStackSerializer {
    /// The stack, or the empty stack when there is none.
    pub fn from_option(item: Option<ItemStack>) -> (r: ItemStackSerializer)
        ensures
            match item {
                Some(st) => r.0 == st,
                None => r.0@ == empty_stack_view(),
            },
    {
        match item {
            Some(st) => ItemStackSerializer(st),
            None => ItemStackSerializer(ItemStack::empty()),
        }
    }

    /// The stack that was carried.
    pub fn to_stack(self) -> (r: ItemStack)
        ensures
            r == self.0,
    {
        self.0
    }

    /// The stack, with its item replaced by the registry entry for `remapped_item_id`
    /// (or the empty item when there is none), unless the stack is empty. The id is the
    /// item's id as the client's protocol version numbers it, mapped to this registry.
    pub fn to_stack_for_version(self, remapped_item_id: u16, registry: &ItemRegistry) -> (r: ItemStack)
        ensures
            is_empty_view(self.0@) ==> r == self.0,
            !is_empty_view(self.0@) ==> r.item_count == self.0.item_count && r.patch == self.0.patch && r.item == match registry.spec_from_id(
                remapped_item_id,
            ) {
                Some(it) => it,
                None => crate::item::spec_air(),
            },
    {
        proof {
            lemma_stack_view_patch(self.0);
        }
        let mut stack = self.0;
        if stack.item_count == 0 || stack.item.id == 0 {
            return stack;
        }
        stack.item = match registry.from_id(remapped_item_id) {
            Some(it) => it,
            None => Item::air(),
        };
        stack
    }

    /// Reads a stack from the deserializer; see [`dec_stack`].
    pub fn deserialize(d: &mut Deserializer, registry: &ItemRegistry) -> (res: Result<ItemStackSerializer, ReadingError>)
        ensures
            final(d).data@ == old(d).data@,
            match (res, dec_stack(old(d).data@, old(d).pos as int, registry.items@)) {
                (Ok(st), Ok((v, q))) => st.0@ == v && final(d).pos == q,
                (Err(e), Err(f)) => e == f && final(d).pos == old(d).pos,
                _ => false,
            },
    {
        match decode_stack(d.data.as_slice(), d.pos, registry) {
            Ok((st, q)) => {
                d.pos = q;
                Ok(ItemStackSerializer(st))
            },
            Err(e) => Err(e),
        }
    }

    /// Writes the stack with its own item id; fails when a component holds a string too
    /// long to write.
    pub fn serialize(&self, out: &mut Vec<u8>) -> (res: Result<(), WritingError>)
        requires
            stack_writable(self.0@),
        ensures
            res is Ok <==> enc_stack(self.0@, self.0.item.id) is Some,
            res is Ok ==> final(out)@ == old(out)@ + enc_stack(self.0@, self.0.item.id)->0,
    {
        proof {
            lemma_stack_view_patch(self.0);
        }
        write_stack(out, &self.0, self.0.item.id)
    }

    /// Writes the stack with item id `remapped_item_id` in place of its own, for a client
    /// whose protocol version numbers items differently.
    pub fn write_with_version(&self, out: &mut Vec<u8>, remapped_item_id: u16) -> (res: Result<(), WritingError>)
        requires
            stack_writable(self.0@),
        ensures
            res is Ok <==> enc_stack(self.0@, remapped_item_id) is Some,
            res is Ok ==> final(out)@ == old(out)@ + enc_stack(self.0@, remapped_item_id)->0,
    {
        write_stack(out, &self.0, remapped_item_id)
    }
}

/// The hashes a client sends for a stack's component changes: the hash of each added
/// component by id, and the ids of the removed ones.
#[derive(Debug)]
pub struct ItemComponentHash {
    pub added: Vec<(VarInt, i32)>,
    pub removed: Vec<VarInt>,
}

/// What a client sends for a stack in place of the stack itself.
#[derive(Debug)]
pub struct ItemStackHash {
    pub item_id: VarInt,
    pub count: VarInt,
    pub components: ItemComponentHash,
}

/// A stack hash, or none for an empty slot.
#[derive(Debug)]
pub struct OptionalItemStackHash(pub Option<ItemStackHash>);

/// A stack hash, as values.
pub struct StackHashView {
    pub item_id: i32,
    pub count: i32,
    pub added: Seq<(VarInt, i32)>,
    pub removed: Seq<VarInt>,
}

impl View for ItemStackHash {
    type V = StackHashView;

    open spec fn view(&self) -> StackHashView {
        StackHashView {
            item_id: self.item_id.0,
            count: self.count.0,
            added: self.components.added@,
            removed: self.components.removed@,
        }
    }
}

impl View for OptionalItemStackHash {
    type V = Option<StackHashView>;

    open spec fn view(&self) -> Option<StackHashView> {
        match self.0 {
            Some(h) => Some(h@),
            None => None,
        }
    }
}

/// The most hashed component changes of each sort that a client may send.
pub const MAX_HASHED_COMPONENTS: i32 = 256;

/// `k` added-component hashes: each an id VarInt and a hash.
pub open spec fn dec_hash_added(s: Seq<u8>, p: int, k: nat) -> Result<(Seq<(VarInt, i32)>, int), ReadingError>
    decreases k,
{
    if k == 0 {
        Ok((Seq::empty(), p))
    } else {
        match decode_var_int(s, p) {
            Err(e) => Err(e),
            Ok((id, q1)) => match read_i32_at(s, q1) {
                Err(e) => Err(e),
                Ok((h, q2)) => cons((VarInt(id), h), dec_hash_added(s, q2, (k - 1) as nat)),
            },
        }
    }
}

/// `k` removed-component ids.
pub open spec fn dec_hash_removed(s: Seq<u8>, p: int, k: nat) -> Result<(Seq<VarInt>, int), ReadingError>
    decreases k,
{
    if k == 0 {
        Ok((Seq::empty(), p))
    } else {
        match decode_var_int(s, p) {
            Err(e) => Err(e),
            Ok((id, q)) => cons(VarInt(id), dec_hash_removed(s, q, (k - 1) as nat)),
        }
    }
}

/// Component hashes: a count of added hashes (0 to `MAX_HASHED_COMPONENTS`), the added
/// hashes, a count of removed ids (same bounds), the removed ids.
pub open spec fn dec_component_hash(s: Seq<u8>, p: int) -> Result<((Seq<(VarInt, i32)>, Seq<VarInt>), int), ReadingError> {
    match decode_var_int(s, p) {
        Err(e) => Err(e),
        Ok((na, p1)) => if na < 0 || na > MAX_HASHED_COMPONENTS {
            Err(ReadingError::Invalid)
        } else {
            match dec_hash_added(s, p1, na as nat) {
                Err(e) => Err(e),
                Ok((added, p2)) => match decode_var_int(s, p2) {
                    Err(e) => Err(e),
                    Ok((nr, p3)) => if nr < 0 || nr > MAX_HASHED_COMPONENTS {
                        Err(ReadingError::Invalid)
                    } else {
                        match dec_hash_removed(s, p3, nr as nat) {
                            Err(e) => Err(e),
                            Ok((removed, p4)) => Ok(((added, removed), p4)),
                        }
                    },
                },
            }
        },
    }
}

/// An optional stack hash: a presence flag, then item id, count and component hashes.
pub open spec fn dec_optional_hash(s: Seq<u8>, p: int) -> Result<(Option<StackHashView>, int), ReadingError> {
    match read_bool_at(s, p) {
        Err(e) => Err(e),
        Ok((is_some, p1)) => if !is_some {
            Ok((None, p1))
        } else {
            match decode_var_int(s, p1) {
                Err(e) => Err(e),
                Ok((item_id, p2)) => match decode_var_int(s, p2) {
                    Err(e) => Err(e),
                    Ok((count, p3)) => match dec_component_hash(s, p3) {
                        Err(e) => Err(e),
                        Ok(((added, removed), p4)) => Ok(
                            (Some(StackHashView { item_id, count, added, removed }), p4),
                        ),
                    },
                },
            }
        },
    }
}

impl ItemComponentHash {
    /// Reads component hashes at `p`.
    #[verifier::loop_isolation(false)]
    pub fn decode(bytes: &[u8], p: usize) -> (res: Result<(ItemComponentHash, usize), ReadingError>)
        ensures
            match res {
                Ok((h, q)) => dec_component_hash(bytes@, p as int) == Ok::<
                    ((Seq<(VarInt, i32)>, Seq<VarInt>), int),
                    ReadingError,
                >(((h.added@, h.removed@), q as int)),
                Err(e) => dec_component_hash(bytes@, p as int) == Err::<
                    ((Seq<(VarInt, i32)>, Seq<VarInt>), int),
                    ReadingError,
                >(e),
            },
    {
        let (na, p1) = match read_var_int(bytes, p) {
            Ok(x) => x,
            Err(e) => return Err(e),
        };
        if na < 0 || na > MAX_HASHED_COMPONENTS {
            return Err(ReadingError::Invalid);
        }
        let k = na as usize;
        let mut added: Vec<(VarInt, i32)> = Vec::new();
        let mut q = p1;
        let mut i: usize = 0;
        proof {
            lemma_after_empty(dec_hash_added(bytes@, p1 as int, k as nat));
        }
        while i < k
            invariant
                i <= k,
                dec_hash_added(bytes@, p1 as int, k as nat) == after(added@, dec_hash_added(bytes@, q as int, (k - i) as nat)),
            decreases k - i,
        {
            let (id, q1) = match read_var_int(bytes, q) {
                Ok(x) => x,
                Err(e) => return Err(e),
            };
            let (h, q2) = match read_i32(bytes, q1) {
                Ok(x) => x,
                Err(e) => return Err(e),
            };
            proof {
                lemma_after_cons(added@, (VarInt(id), h), dec_hash_added(bytes@, q2 as int, (k - i - 1) as nat));
            }
            added.push((VarInt(id), h));
            q = q2;
            i = i + 1;
        }
        assert(added@ + Seq::<(VarInt, i32)>::empty() =~= added@);
        let p2 = q;
        let (nr, p3) = match read_var_int(bytes, p2) {
            Ok(x) => x,
            Err(e) => return Err(e),
        };
        if nr < 0 || nr > MAX_HASHED_COMPONENTS {
            return Err(ReadingError::Invalid);
        }
        let k = nr as usize;
        let mut removed: Vec<VarInt> = Vec::new();
        let mut q = p3;
        let mut i: usize = 0;
        proof {
            lemma_after_empty(dec_hash_removed(bytes@, p3 as int, k as nat));
        }
        while i < k
            invariant
                i <= k,
                dec_hash_removed(bytes@, p3 as int, k as nat) == after(removed@, dec_hash_removed(bytes@, q as int, (k - i) as nat)),
            decreases k - i,
        {
            let (id, q1) = match read_var_int(bytes, q) {
                Ok(x) => x,
                Err(e) => return Err(e),
            };
            proof {
                lemma_after_cons(removed@, VarInt(id), dec_hash_removed(bytes@, q1 as int, (k - i - 1) as nat));
            }
            removed.push(VarInt(id));
            q = q1;
            i = i + 1;
        }
        assert(removed@ + Seq::<VarInt>::empty() =~= removed@);
        Ok((ItemComponentHash { added, removed }, q))
    }
}

proof fn lemma_first_hash_index_props(added: Seq<(VarInt, i32)>, id: int)
    ensures
        -1 <= first_hash_index(added, id) < added.len(),
        first_hash_index(added, id) >= 0 ==> added[first_hash_index(added, id)].0.0 == id,
        first_hash_index(added, id) >= 0 ==> forall|k: int| 0 <= k < first_hash_index(added, id) ==> #[trigger] added[k].0.0 != id,
        first_hash_index(added, id) < 0 ==> forall|k: int| 0 <= k < added.len() ==> #[trigger] added[k].0.0 != id,
    decreases added.len(),
{
    if added.len() > 0 && added[0].0.0 != id {
        let rest = added.drop_first();
        lemma_first_hash_index_props(rest, id);
        assert forall|k: int| 1 <= k < added.len() implies added[k] == rest[k - 1] by {}
        let r = first_hash_index(rest, id);
        if r >= 0 {
            assert forall|k: int| 0 <= k < r + 1 implies #[trigger] added[k].0.0 != id by {
                if k > 0 {
                    assert(added[k] == rest[k - 1]);
                }
            }
        } else {
            assert forall|k: int| 0 <= k < added.len() implies #[trigger] added[k].0.0 != id by {
                if k > 0 {
                    assert(added[k] == rest[k - 1]);
                }
            }
        }
    }
}

/// What matching a stack against a sent hash means: the item id and count agree, the
/// hash lists as many added and as many removed components as the stack's patch has,
/// every component the stack removes is among the removed ids, and every component it
/// adds has, where the hash sends any hash for its id, the first one sent equal to the
/// component's own hash.
pub proof fn lemma_hash_equals_meaning(h: StackHashView, v: ItemStackView, hashes: Seq<i32>)
    ensures
        spec_hash_equals(Some(h), v, hashes) <==> {
            &&& h.item_id == v.item.id as i32
            &&& h.count == v.item_count as i32
            &&& added_count(v.patch) == h.added.len()
            &&& removed_count(v.patch) == h.removed.len()
            &&& forall|i: int|
                0 <= i < v.patch.len() && (#[trigger] v.patch[i]).1 is None ==> h.removed.contains(
                    VarInt(v.patch[i].0.0 as i32),
                )
            &&& forall|i: int, j: int|
                0 <= i < v.patch.len() && (#[trigger] v.patch[i]).1 is Some && 0 <= j < h.added.len() && (#[trigger] h.added[j]).0.0
                    == v.patch[i].0.0 as int && (forall|k: int| 0 <= k < j ==> (#[trigger] h.added[k]).0.0 != v.patch[i].0.0 as int)
                    ==> h.added[j].1 == hashes[i]
        },
{
    let removed_ok = forall|i: int|
        0 <= i < v.patch.len() && (#[trigger] v.patch[i]).1 is None ==> h.removed.contains(VarInt(v.patch[i].0.0 as i32));
    let added_ok = forall|i: int, j: int|
        0 <= i < v.patch.len() && (#[trigger] v.patch[i]).1 is Some && 0 <= j < h.added.len() && (#[trigger] h.added[j]).0.0
            == v.patch[i].0.0 as int && (forall|k: int| 0 <= k < j ==> (#[trigger] h.added[k]).0.0 != v.patch[i].0.0 as int)
            ==> h.added[j].1 == hashes[i];
    let all_agree = forall|i: int| 0 <= i < v.patch.len() ==> #[trigger] entry_agrees(h, v.patch[i], hashes[i]);
    if all_agree {
        assert forall|i: int| 0 <= i < v.patch.len() && (#[trigger] v.patch[i]).1 is None implies h.removed.contains(
            VarInt(v.patch[i].0.0 as i32),
        ) by {
            assert(entry_agrees(h, v.patch[i], hashes[i]));
        }
        assert forall|i: int, j: int|
            0 <= i < v.patch.len() && (#[trigger] v.patch[i]).1 is Some && 0 <= j < h.added.len() && (#[trigger] h.added[j]).0.0
                == v.patch[i].0.0 as int && (forall|k: int| 0 <= k < j ==> (#[trigger] h.added[k]).0.0 != v.patch[i].0.0 as int)
            implies h.added[j].1 == hashes[i] by {
            assert(entry_agrees(h, v.patch[i], hashes[i]));
            lemma_first_hash_index_step(h.added, v.patch[i].0.0 as int, j);
        }
    }
    if removed_ok && added_ok {
        assert forall|i: int| 0 <= i < v.patch.len() implies #[trigger] entry_agrees(h, v.patch[i], hashes[i]) by {
            let id = v.patch[i].0.0 as int;
            if v.patch[i].1 is Some {
                lemma_first_hash_index_props(h.added, id);
                let r = first_hash_index(h.added, id);
                if r >= 0 {
                    assert(h.added[r].0.0 == id);
                    assert(forall|k: int| 0 <= k < r ==> (#[trigger] h.added[k]).0.0 != id);
                }
            }
        }
    }
}

/// A stack that removes a component the hash does not list as removed never matches it.
pub proof fn lemma_unlisted_removal_mismatch(h: StackHashView, v: ItemStackView, hashes: Seq<i32>, i: int)
    requires
        0 <= i < v.patch.len(),
        v.patch[i].1 is None,
        !h.removed.contains(VarInt(v.patch[i].0.0 as i32)),
    ensures
        !spec_hash_equals(Some(h), v, hashes),
{
    lemma_hash_equals_meaning(h, v, hashes);
}

impl OptionalItemStackHash {
    /// Reads an optional stack hash from the deserializer; see [`dec_optional_hash`].
    pub fn deserialize(d: &mut Deserializer) -> (res: Result<OptionalItemStackHash, ReadingError>)
        ensures
            final(d).data@ == old(d).data@,
            match (res, dec_optional_hash(old(d).data@, old(d).pos as int)) {
                (Ok(h), Ok((v, q))) => h@ == v && final(d).pos == q,
                (Err(e), Err(f)) => e == f && final(d).pos == old(d).pos,
                _ => false,
            },
    {
        let bytes = d.data.as_slice();
        let (is_some, p1) = match read_bool(bytes, d.pos) {
            Ok(x) => x,
            Err(e) => return Err(e),
        };
        if !is_some {
            d.pos = p1;
            return Ok(OptionalItemStackHash(None));
        }
        let (item_id, p2) = match read_var_int(bytes, p1) {
            Ok(x) => x,
            Err(e) => return Err(e),
        };
        let (count, p3) = match read_var_int(bytes, p2) {
            Ok(x) => x,
            Err(e) => return Err(e),
        };
        let (components, p4) = match ItemComponentHash::decode(bytes, p3) {
            Ok(x) => x,
            Err(e) => return Err(e),
        };
        d.pos = p4;
        Ok(OptionalItemStackHash(Some(ItemStackHash { item_id: VarInt(item_id), count: VarInt(count), components })))
    }
}

/// The index of the first added hash for component id `id`, or -1 when there is none.
pub open spec fn first_hash_index(added: Seq<(VarInt, i32)>, id: int) -> int
    decreases added.len(),
{
    if added.len() == 0 {
        -1
    } else if added[0].0.0 == id {
        0
    } else {
        let r = first_hash_index(added.drop_first(), id);
        if r < 0 {
            -1
        } else {
            r + 1
        }
    }
}

/// Patch entry `e` agrees with the hashes `h`: an added component agrees when the first
/// hash sent for its id equals `hash`, or when no hash is sent for its id; a removed
/// component agrees when its id is among the removed ids.
pub open spec fn entry_agrees(h: StackHashView, e: (DataComponent, Option<ComponentView>), hash: i32) -> bool {
    match e.1 {
        Some(_) => {
            let j = first_hash_index(h.added, e.0.0 as int);
            j < 0 || h.added[j].1 == hash
        },
        None => h.removed.contains(VarInt(e.0.0 as i32)),
    }
}

/// A stack matches an optional stack hash: no hash matches exactly the empty stacks; a
/// hash matches a stack with its item id and count, as many added and removed
/// components as it lists, and every patch entry agreeing, `hashes[i]` being the hash of
/// the value of entry `i`.
pub open spec fn spec_hash_equals(h: Option<StackHashView>, v: ItemStackView, hashes: Seq<i32>) -> bool {
    match h {
        None => is_empty_view(v),
        Some(h) => {
            &&& h.item_id == v.item.id as i32
            &&& h.count == v.item_count as i32
            &&& added_count(v.patch) == h.added.len()
            &&& removed_count(v.patch) == h.removed.len()
            &&& forall|i: int| 0 <= i < v.patch.len() ==> #[trigger] entry_agrees(h, v.patch[i], hashes[i])
        },
    }
}

proof fn lemma_first_hash_index_step(added: Seq<(VarInt, i32)>, id: int, t: int)
    requires
        0 <= t < added.len(),
        forall|u: int| 0 <= u < t ==> #[trigger] added[u].0.0 != id,
    ensures
        added[t].0.0 == id ==> first_hash_index(added, id) == t,
    decreases t,
{
    if t > 0 {
        assert forall|u: int| 0 <= u < t - 1 implies #[trigger] added.drop_first()[u].0.0 != id by {
            assert(added.drop_first()[u] == added[u + 1]);
        }
        assert(added[0].0.0 != id);
        lemma_first_hash_index_step(added.drop_first(), id, t - 1);
    }
}

proof fn lemma_first_hash_index_none(added: Seq<(VarInt, i32)>, id: int)
    requires
        forall|u: int| 0 <= u < added.len() ==> #[trigger] added[u].0.0 != id,
    ensures
        first_hash_index(added, id) == -1,
    decreases added.len(),
{
    if added.len() > 0 {
        assert forall|u: int| 0 <= u < added.drop_first().len() implies #[trigger] added.drop_first()[u].0.0 != id by {
            assert(added.drop_first()[u] == added[u + 1]);
        }
        assert(added[0].0.0 != id);
        lemma_first_hash_index_none(added.drop_first(), id);
    }
}

impl OptionalItemStackHash {
    /// Whether `other` matches this hash; `component_hashes[i]` is the hash of the value of
    /// entry `i` of its patch (unused for removed entries).
    #[verifier::loop_isolation(false)]
    pub fn hash_equals(&self, other: &ItemStack, component_hashes: &[i32]) -> (r: bool)
        requires
            component_hashes@.len() == other.patch@.len(),
            self@ matches Some(h) && h.item_id == other.item.id as i32 && h.count == other.item_count as i32
                ==> added_count(other@.patch) <= 255 && removed_count(other@.patch) <= 255,
        ensures
            r == spec_hash_equals(self@, other@, component_hashes@),
    {
        proof {
            lemma_stack_view_patch(*other);
        }
        let ghost pv = other@.patch;
        match &self.0 {
            None => other.item_count == 0 || other.item.id == 0,
            Some(hash) => {
                let ghost hv = hash@;
                if hash.item_id.0 != other.item.id as i32 || hash.count.0 != other.item_count as i32 {
                    return false;
                }
                let (to_add, to_remove) = item_component_counts(other);
                if to_add as usize != hash.components.added.len() || to_remove as usize != hash.components.removed.len() {
                    return false;
                }
                let n = other.patch.len();
                let mut i: usize = 0;
                while i < n
                    invariant
                        n == other.patch@.len() == pv.len() == component_hashes@.len(),
                        pv == patch_view(other.patch@),
                        hv == hash@,
                        i <= n,
                        forall|t: int| 0 <= t < i ==> #[trigger] entry_agrees(hv, pv[t], component_hashes@[t]),
                    decreases n - i,
                {
                    let other_id = other.patch[i].0;
                    if other.patch[i].1.is_some() {
                        assert(pv[i as int].1 is Some);
                        let checksum = component_hashes[i];
                        let added = &hash.components.added;
                        let mut t: usize = 0;
                        let mut hit = false;
                        while t < added.len() && !hit
                            invariant
                                added@ == hv.added,
                                t <= added@.len(),
                                forall|u: int| 0 <= u < t ==> #[trigger] added@[u].0.0 != other_id.0 as int,
                                hit ==> t < added@.len() && added@[t as int].0.0 == other_id.0 as int,
                            decreases added@.len() - t, if hit { 0int } else { 1int },
                        {
                            if added[t].0.0 == other_id.0 as i32 {
                                hit = true;
                            } else {
                                t = t + 1;
                            }
                        }
                        let agreed = if hit {
                            proof {
                                lemma_first_hash_index_step(added@, other_id.0 as int, t as int);
                            }
                            added[t].1 == checksum
                        } else {
                            proof {
                                lemma_first_hash_index_none(added@, other_id.0 as int);
                            }
                            true
                        };
                        assert(agreed == entry_agrees(hv, pv[i as int], component_hashes@[i as int]));
                        if !agreed {
                            return false;
                        }
                    } else {
                        assert(pv[i as int].1 is None);
                        let removed = &hash.components.removed;
                        let mut t: usize = 0;
                        let mut found = false;
                        while t < removed.len()
                            invariant
                                removed@ == hv.removed,
                                t <= removed@.len(),
                                !found ==> forall|u: int| 0 <= u < t ==> #[trigger] removed@[u] != VarInt(other_id.0 as i32),
                                found ==> removed@.contains(VarInt(other_id.0 as i32)),
                            decreases removed@.len() - t,
                        {
                            if removed[t].0 == other_id.0 as i32 {
                                found = true;
                                assert(removed@[t as int] == VarInt(other_id.0 as i32));
                            }
                            t = t + 1;
                        }
                        assert(found == entry_agrees(hv, pv[i as int], component_hashes@[i as int]));
                        if !found {
                            return false;
                        }
                    }
                    i = i + 1;
                }
                true
            },
        }
    }
}

} // verus!
