use vstd::prelude::*;

verus! {

#[verifier::external_type_specification]
#[verifier::external_body]
#[verifier::reject_recursive_types(L)]
#[verifier::reject_recursive_types(R)]
#[verifier::reject_recursive_types(LS)]
#[verifier::reject_recursive_types(RS)]
pub struct ExBiHashMap<L, R, LS, RS>(bimap::BiHashMap<L, R, LS, RS>);

/// The pairs held by a bimap, as a map from left values to right values.
pub uninterp spec fn bimap_pairs(m: bimap::BiHashMap<String, String>) -> Map<Seq<char>, Seq<char>>;

/// Inserting `(l, r)` drops every pair whose left value is `l` or whose right
/// value is `r`, then adds the pair (last write wins in both directions).
pub open spec fn pair_insert(m: Map<Seq<char>, Seq<char>>, l: Seq<char>, r: Seq<char>) -> Map<
    Seq<char>,
    Seq<char>,
> {
    Map::new(
        |k: Seq<char>| k == l || (m.contains_key(k) && m[k] != r),
        |k: Seq<char>| if k == l { r } else { m[k] },
    )
}

/// No two keys share a value.
pub open spec fn is_injective(m: Map<Seq<char>, Seq<char>>) -> bool {
    forall|a: Seq<char>, b: Seq<char>|
        #![trigger m[a], m[b]]
        m.contains_key(a) && m.contains_key(b) && m[a] == m[b] ==> a == b
}

/// The right value paired with `l`, if any.
pub open spec fn right_of(m: Map<Seq<char>, Seq<char>>, l: Seq<char>) -> Option<Seq<char>> {
    if m.contains_key(l) {
        Some(m[l])
    } else {
        None
    }
}

/// Whether some key is paired with `r`.
pub open spec fn has_right(m: Map<Seq<char>, Seq<char>>, r: Seq<char>) -> bool {
    exists|l: Seq<char>| m.contains_key(l) && m[l] == r
}

/// The left value paired with `r`, if any (unique in an injective map).
pub open spec fn left_of(m: Map<Seq<char>, Seq<char>>, r: Seq<char>) -> Option<Seq<char>> {
    if has_right(m, r) {
        Some(choose|l: Seq<char>| m.contains_key(l) && m[l] == r)
    } else {
        None
    }
}

pub open spec fn opt_view(o: Option<String>) -> Option<Seq<char>> {
    match o {
        Some(s) => Some(s@),
        None => None,
    }
}

/// Relies on `bimap::BiHashMap::new`: the new bimap is empty.
#[verifier::external_body]
fn bimap_new() -> (r: bimap::BiHashMap<String, String>)
    ensures
        bimap_pairs(r).is_empty(),
{
    bimap::BiHashMap::new()
}

/// Relies on `bimap::BiHashMap::insert`: it removes the pair of `l` and the
/// pair of `r`, then inserts `(l, r)`.
#[verifier::external_body]
fn bimap_insert(m: &mut bimap::BiHashMap<String, String>, l: String, r: String)
    ensures
        bimap_pairs(*final(m)) == pair_insert(bimap_pairs(*old(m)), l@, r@),
{
    m.insert(l, r);
}

/// Relies on `bimap::BiHashMap::get_by_left`: the right value paired with `l`.
#[verifier::external_body]
fn bimap_get_by_left(m: &bimap::BiHashMap<String, String>, l: &str) -> (r: Option<String>)
    ensures
        opt_view(r) == right_of(bimap_pairs(*m), l@),
{
    m.get_by_left(l).cloned()
}

/// Relies on `bimap::BiHashMap::get_by_right`: some left value paired with
/// `r`, present exactly when `r` is a right value of the bimap.
#[verifier::external_body]
fn bimap_get_by_right(m: &bimap::BiHashMap<String, String>, r: &str) -> (o: Option<String>)
    ensures
        o is Some <==> has_right(bimap_pairs(*m), r@),
        o is Some ==> bimap_pairs(*m).contains_key(o->0@) && bimap_pairs(*m)[o->0@] == r@,
{
    m.get_by_right(r).cloned()
}

/// A bijection between visible macro names (left) and the names they expand
/// to (right).
pub struct RenameTable {
    remaps: bimap::BiHashMap<String, String>,
}

impl View for RenameTable {
    type V = Map<Seq<char>, Seq<char>>;

    closed spec fn view(&self) -> Map<Seq<char>, Seq<char>> {
        bimap_pairs(self.remaps)
    }
}

impl RenameTable {
    /// Every table reachable through this API is a bijection.
    pub open spec fn wf(&self) -> bool {
        is_injective(self@)
    }

    pub fn new() -> (t: RenameTable)
        ensures
            t.wf(),
            t@ == Map::<Seq<char>, Seq<char>>::empty(),
    {
        RenameTable { remaps: bimap_new() }
    }

    /// Pairs `visible` with `expanded`, dropping any pair that held either.
    pub fn insert(&mut self, visible: String, expanded: String)
        requires
            old(self).wf(),
        ensures
            final(self).wf(),
            final(self)@ == pair_insert(old(self)@, visible@, expanded@),
    {
        bimap_insert(&mut self.remaps, visible, expanded);
        proof {
            lemma_pair_insert_injective(old(self)@, visible@, expanded@);
        }
    }

    /// The name that `visible` expands to, if it is a key of the table.
    pub fn get_by_left(&self, visible: &str) -> (r: Option<String>)
        ensures
            opt_view(r) == right_of(self@, visible@),
    {
        bimap_get_by_left(&self.remaps, visible)
    }

    /// The visible name that expands to `expanded`, if any does.
    pub fn get_by_right(&self, expanded: &str) -> (r: Option<String>)
        requires
            self.wf(),
        ensures
            opt_view(r) == left_of(self@, expanded@),
    {
        let r = bimap_get_by_right(&self.remaps, expanded);
        proof {
            if r is Some {
                lemma_left_of_unique(self@, expanded@, r->0@);
            }
        }
        r
    }
}

/// In an injective map the key of a value is the one `left_of` picks.
pub proof fn lemma_left_of_unique(m: Map<Seq<char>, Seq<char>>, r: Seq<char>, l: Seq<char>)
    requires
        is_injective(m),
        m.contains_key(l),
        m[l] == r,
    ensures
        left_of(m, r) == Some(l),
{
    assert(has_right(m, r));
    let c = choose|k: Seq<char>| m.contains_key(k) && m[k] == r;
    assert(m[c] == m[l]);
}

/// Insertion keeps a map injective.
pub proof fn lemma_pair_insert_injective(m: Map<Seq<char>, Seq<char>>, l: Seq<char>, r: Seq<char>)
    requires
        is_injective(m),
    ensures
        is_injective(pair_insert(m, l, r)),
{
    let n = pair_insert(m, l, r);
    assert forall|a: Seq<char>, b: Seq<char>|
        n.contains_key(a) && n.contains_key(b) && n[a] == n[b] implies a == b by {
        if a != l && b != l {
            assert(m[a] == m[b]);
        }
    }
}

} // verus!
