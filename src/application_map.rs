use vstd::prelude::*;

use crate::ids::{AppUserId, AttributeId, UserId};

verus! {

/// What one registration means: the domain `domain_name` of the identity
/// `user_id` is known under the pseudonym `app_user_id`, which holds the
/// attribute scope `attributes`.
pub struct AppRecord {
    pub user_id: UserId,
    pub domain_name: Seq<char>,
    pub app_user_id: AppUserId,
    pub attributes: Set<AttributeId>,
}

/// The record of a registration with its attribute scope replaced by `attributes`.
pub open spec fn with_attributes(r: AppRecord, attributes: Set<AttributeId>) -> AppRecord {
    AppRecord { attributes, ..r }
}

/// No two records share a domain of one identity, and no two share a pseudonym.
pub open spec fn records_wf(s: Seq<AppRecord>) -> bool {
    &&& forall|i: int, j: int|
        0 <= i < j < s.len() ==> !(#[trigger] s[i].user_id == #[trigger] s[j].user_id
            && s[i].domain_name == s[j].domain_name)
    &&& forall|i: int, j: int|
        0 <= i < j < s.len() ==> #[trigger] s[i].app_user_id != #[trigger] s[j].app_user_id
}

/// Whether `s` holds a registration of domain `d` for identity `g`.
pub open spec fn registered(s: Seq<AppRecord>, g: UserId, d: Seq<char>) -> bool {
    exists|i: int| 0 <= i < s.len() && #[trigger] s[i].user_id == g && s[i].domain_name == d
}

/// Whether `s` holds a registration that issued the pseudonym `p`.
pub open spec fn issued(s: Seq<AppRecord>, p: AppUserId) -> bool {
    exists|i: int| 0 <= i < s.len() && #[trigger] s[i].app_user_id == p
}

/// The records of `s` after the attribute scope of domain `d` of identity `g`
/// is replaced by `a`.
pub open spec fn replace_scope(s: Seq<AppRecord>, g: UserId, d: Seq<char>, a: Set<AttributeId>) -> Seq<
    AppRecord,
> {
    s.map_values(
        |r: AppRecord|
            if r.user_id == g && r.domain_name == d {
                with_attributes(r, a)
            } else {
                r
            },
    )
}

/// The records of `s` after attribute `a` is taken out of every scope of identity `g`.
pub open spec fn revoke(s: Seq<AppRecord>, g: UserId, a: AttributeId) -> Seq<AppRecord> {
    s.map_values(
        |r: AppRecord|
            if r.user_id == g {
                with_attributes(r, r.attributes.remove(a))
            } else {
                r
            },
    )
}

/// The record that a fresh registration adds.
pub open spec fn fresh_record(g: UserId, d: Seq<char>, p: AppUserId, a: Set<AttributeId>) -> AppRecord {
    AppRecord { user_id: g, domain_name: d, app_user_id: p, attributes: a }
}

/// The domains that identity `g` has registered in `s`.
pub open spec fn domain_set(s: Seq<AppRecord>, g: UserId) -> Set<Seq<char>> {
    Set::new(|d: Seq<char>| registered(s, g, d))
}

/// What `register` returns on the records `s`: the pseudonym `p`, unless
/// domain `d` of `g` is registered already or `p` was issued before.
pub open spec fn register_outcome(s: Seq<AppRecord>, g: UserId, d: Seq<char>, p: AppUserId) -> Option<
    AppUserId,
> {
    if registered(s, g, d) || issued(s, p) {
        None
    } else {
        Some(p)
    }
}

/// The records after `register` of domain `d` of `g` under `p`.
pub open spec fn after_register(s: Seq<AppRecord>, g: UserId, d: Seq<char>, p: AppUserId) -> Seq<
    AppRecord,
> {
    if registered(s, g, d) || issued(s, p) {
        s
    } else {
        s.push(fresh_record(g, d, p, Set::empty()))
    }
}

/// The records after the attribute scope of domain `d` of `g` is set to `a`,
/// registering the domain under `p` first where it is not registered.
pub open spec fn after_set_attributes(
    s: Seq<AppRecord>,
    g: UserId,
    d: Seq<char>,
    p: AppUserId,
    a: Set<AttributeId>,
) -> Seq<AppRecord> {
    if registered(s, g, d) {
        replace_scope(s, g, d, a)
    } else if issued(s, p) {
        s
    } else {
        s.push(fresh_record(g, d, p, a))
    }
}

struct AppEntry {
    user_id: UserId,
    domain_name: String,
    app_user_id: AppUserId,
    attributes: Vec<AttributeId>,
}

impl AppEntry {
    closed spec fn record(&self) -> AppRecord {
        AppRecord {
            user_id: self.user_id,
            domain_name: self.domain_name@,
            app_user_id: self.app_user_id,
            attributes: self.attributes@.to_set(),
        }
    }
}

/// Whether `attributes` holds `attribute_id`.
fn contains_attribute(attributes: &Vec<AttributeId>, attribute_id: AttributeId) -> (r: bool)
    ensures
        r == attributes@.contains(attribute_id),
{
    let mut i: usize = 0;
    while i < attributes.len()
        invariant
            i <= attributes@.len(),
            forall|k: int| 0 <= k < i ==> attributes@[k] != attribute_id,
        decreases attributes@.len() - i,
    {
        if attributes[i] == attribute_id {
            return true;
        }
        i = i + 1;
    }
    false
}

/// The attributes of `attributes`, each once, in order of first occurrence.
fn distinct_attributes(attributes: &Vec<AttributeId>) -> (r: Vec<AttributeId>)
    ensures
        r@.no_duplicates(),
        r@.to_set() == attributes@.to_set(),
{
    let mut r: Vec<AttributeId> = Vec::new();
    let mut i: usize = 0;
    assert(r@.to_set() =~= attributes@.take(0).to_set());
    while i < attributes.len()
        invariant
            i <= attributes@.len(),
            r@.no_duplicates(),
            r@.to_set() == attributes@.take(i as int).to_set(),
        decreases attributes@.len() - i,
    {
        let a = attributes[i];
        let ghost before = r@;
        proof {
            assert(attributes@.take(i + 1) =~= attributes@.take(i as int).push(a));
            attributes@.take(i as int).lemma_push_to_set_commute(a);
            before.lemma_push_to_set_commute(a);
        }
        if !contains_attribute(&r, a) {
            r.push(a);
        } else {
            assert(before.to_set().contains(a));
            assert(before.to_set().insert(a) =~= before.to_set());
        }
        i = i + 1;
    }
    assert(attributes@.take(i as int) =~= attributes@);
    r
}

/// The attributes of `attributes` other than `attribute_id`.
fn without_attribute(attributes: &Vec<AttributeId>, attribute_id: AttributeId) -> (r: Vec<
    AttributeId,
>)
    requires
        attributes@.no_duplicates(),
    ensures
        r@.no_duplicates(),
        r@.to_set() == attributes@.to_set().remove(attribute_id),
{
    let mut r: Vec<AttributeId> = Vec::new();
    let mut i: usize = 0;
    assert(r@.to_set() =~= attributes@.take(0).to_set().remove(attribute_id));
    while i < attributes.len()
        invariant
            i <= attributes@.len(),
            attributes@.no_duplicates(),
            r@.no_duplicates(),
            r@.to_set() == attributes@.take(i as int).to_set().remove(attribute_id),
        decreases attributes@.len() - i,
    {
        let a = attributes[i];
        let ghost before = r@;
        let ghost prefix = attributes@.take(i as int);
        proof {
            assert(attributes@.take(i + 1) =~= prefix.push(a));
            prefix.lemma_push_to_set_commute(a);
            before.lemma_push_to_set_commute(a);
        }
        if a != attribute_id {
            proof {
                if before.contains(a) {
                    assert(before.to_set().contains(a));
                    assert(prefix.to_set().contains(a));
                    let k = choose|k: int| 0 <= k < prefix.len() && prefix[k] == a;
                    assert(attributes@[k] == attributes@[i as int]);
                }
            }
            r.push(a);
            assert(r@.to_set() =~= prefix.push(a).to_set().remove(attribute_id));
        } else {
            assert(r@.to_set() =~= prefix.push(a).to_set().remove(attribute_id));
        }
        i = i + 1;
    }
    assert(attributes@.take(i as int) =~= attributes@);
    r
}

/// The registry of pseudonyms.
///
/// It is one table with a row per registered domain of an identity. A row
/// holds the forward mapping (identity and domain to pseudonym), the reverse
/// mapping (pseudonym to identity) and the pseudonym's attribute scope, so
/// all three change together or not at all, and a pseudonym resolves, or has
/// a scope, exactly when a registration issued it.
pub struct ApplicationMap {
    apps: Vec<AppEntry>,
}

impl View for ApplicationMap {
    type V = Seq<AppRecord>;

    closed spec fn view(&self) -> Seq<AppRecord> {
        self.apps@.map_values(|e: AppEntry| e.record())
    }
}

impl ApplicationMap {
    /// The table is consistent: its records satisfy `records_wf` and every
    /// attribute scope is stored without repetition.
    pub closed spec fn wf(&self) -> bool {
        &&& records_wf(self@)
        &&& forall|i: int| 0 <= i < self.apps@.len() ==> (#[trigger] self.apps@[i]).attributes@.no_duplicates()
    }

    /// An empty registry.
    pub fn new() -> (r: Self)
        ensures
            r.wf(),
            r@ == Seq::<AppRecord>::empty(),
    {
        let r = ApplicationMap { apps: Vec::new() };
        assert(r@ =~= Seq::<AppRecord>::empty());
        r
    }

    /// The row that registers domain `domain_name` of `user_id`, if any.
    fn position_of_domain(&self, user_id: &UserId, domain_name: &String) -> (r: Option<usize>)
        requires
            self.wf(),
        ensures
            match r {
                Some(i) => i < self@.len() && self@[i as int].user_id == *user_id
                    && self@[i as int].domain_name == domain_name@,
                None => !registered(self@, *user_id, domain_name@),
            },
    {
        let mut i: usize = 0;
        while i < self.apps.len()
            invariant
                i <= self.apps@.len(),
                forall|k: int|
                    0 <= k < i ==> !(#[trigger] self@[k].user_id == *user_id && self@[k].domain_name
                        == domain_name@),
            decreases self.apps@.len() - i,
        {
            let e = &self.apps[i];
            if e.user_id == *user_id && e.domain_name == *domain_name {
                return Some(i);
            }
            i = i + 1;
        }
        None
    }

    /// The row that issued the pseudonym `app_user_id`, if any.
    fn position_of_pseudonym(&self, app_user_id: &AppUserId) -> (r: Option<usize>)
        requires
            self.wf(),
        ensures
            match r {
                Some(i) => i < self@.len() && self@[i as int].app_user_id == *app_user_id,
                None => !issued(self@, *app_user_id),
            },
    {
        let mut i: usize = 0;
        while i < self.apps.len()
            invariant
                i <= self.apps@.len(),
                forall|k: int| 0 <= k < i ==> #[trigger] self@[k].app_user_id != *app_user_id,
            decreases self.apps@.len() - i,
        {
            if self.apps[i].app_user_id == *app_user_id {
                return Some(i);
            }
            i = i + 1;
        }
        None
    }

    /// The identity that owns the pseudonym `app_user_id`. Only a pseudonym
    /// that this registry issued resolves.
    pub fn user_id(&self, app_user_id: &AppUserId) -> (r: Option<&UserId>)
        requires
            self.wf(),
        ensures
            !issued(self@, *app_user_id) ==> r.is_none(),
            forall|i: int|
                0 <= i < self@.len() && #[trigger] self@[i].app_user_id == *app_user_id ==> r
                    == Some(&self@[i].user_id),
    {
        match self.position_of_pseudonym(app_user_id) {
            None => None,
            Some(i) => Some(&self.apps[i].user_id),
        }
    }

    /// Registers domain `domain_name` of `user_id` under the pseudonym
    /// `app_user_id`, which the caller derived from the two. Returns the
    /// pseudonym, with an empty attribute scope, or `None` with nothing
    /// changed where the domain is registered already or the pseudonym was
    /// issued before.
    pub fn register(&mut self, user_id: UserId, domain_name: String, app_user_id: AppUserId) -> (r:
        Option<AppUserId>)
        requires
            old(self).wf(),
        ensures
            final(self).wf(),
            r == register_outcome(old(self)@, user_id, domain_name@, app_user_id),
            final(self)@ == after_register(old(self)@, user_id, domain_name@, app_user_id),
    {
        if self.position_of_domain(&user_id, &domain_name).is_some() {
            return None;
        }
        if self.position_of_pseudonym(&app_user_id).is_some() {
            return None;
        }
        let ghost old_view = self@;
        let entry = AppEntry { user_id, domain_name, app_user_id, attributes: Vec::new() };
        assert(entry.record() == fresh_record(user_id, entry.domain_name@, app_user_id, Set::empty()))
            by {
            assert(entry.attributes@.to_set() =~= Set::<AttributeId>::empty());
        }
        self.apps.push(entry);
        assert(self@ =~= old_view.push(entry.record()));
        Some(app_user_id)
    }

    /// Replaces the attribute scope of row `i` by `scope`.
    fn replace_row_scope(&mut self, i: usize, scope: Vec<AttributeId>)
        requires
            old(self).wf(),
            i < old(self)@.len(),
            scope@.no_duplicates(),
        ensures
            final(self).wf(),
            final(self)@ == old(self)@.update(
                i as int,
                with_attributes(old(self)@[i as int], scope@.to_set()),
            ),
    {
        let ghost old_view = self@;
        let e = &self.apps[i];
        let entry = AppEntry {
            user_id: e.user_id,
            domain_name: e.domain_name.clone(),
            app_user_id: e.app_user_id,
            attributes: scope,
        };
        self.apps.set(i, entry);
        assert(self@ =~= old_view.update(i as int, with_attributes(old_view[i as int], scope@.to_set())));
        assert forall|k: int| 0 <= k < self.apps@.len() implies (
        #[trigger] self.apps@[k]).attributes@.no_duplicates() by {
            if k != i {
                assert(self.apps@[k] == old(self).apps@[k]);
            }
        }
        assert forall|k: int, l: int|
            0 <= k < l < self@.len() implies !(#[trigger] self@[k].user_id == #[trigger] self@[l].user_id
            && self@[k].domain_name == self@[l].domain_name) by {
            assert(old_view[k].user_id == self@[k].user_id);
            assert(old_view[l].user_id == self@[l].user_id);
        }
        assert forall|k: int, l: int|
            0 <= k < l < self@.len() implies #[trigger] self@[k].app_user_id
            != #[trigger] self@[l].app_user_id by {
            assert(old_view[k].app_user_id == self@[k].app_user_id);
            assert(old_view[l].app_user_id == self@[l].app_user_id);
        }
    }

    /// Sets the attribute scope of domain `domain_name` of `user_id` to the
    /// attributes of `attributes`, each once, replacing what it held. A domain
    /// not registered yet is registered first under `app_user_id`, the
    /// pseudonym the caller derived from the two; where that pseudonym was
    /// issued before, nothing changes.
    pub fn set_attributes(
        &mut self,
        user_id: UserId,
        domain_name: String,
        app_user_id: AppUserId,
        attributes: Vec<AttributeId>,
    )
        requires
            old(self).wf(),
        ensures
            final(self).wf(),
            final(self)@ == after_set_attributes(
                old(self)@,
                user_id,
                domain_name@,
                app_user_id,
                attributes@.to_set(),
            ),
    {
        let ghost old_view = self@;
        let ghost d = domain_name@;
        let scope = distinct_attributes(&attributes);
        match self.position_of_domain(&user_id, &domain_name) {
            Some(i) => {
                self.replace_row_scope(i, scope);
                assert forall|k: int| 0 <= k < old_view.len() && k != i implies !(
                #[trigger] old_view[k].user_id == user_id && old_view[k].domain_name == d) by {
                    if k < i {
                        assert(!(old_view[k].user_id == old_view[i as int].user_id
                            && old_view[k].domain_name == old_view[i as int].domain_name));
                    } else {
                        assert(!(old_view[i as int].user_id == old_view[k].user_id
                            && old_view[i as int].domain_name == old_view[k].domain_name));
                    }
                }
                assert(self@ =~= replace_scope(old_view, user_id, d, attributes@.to_set()));
            },
            None => {
                if self.register(user_id, domain_name, app_user_id).is_some() {
                    assert(self@.len() == self.apps@.len());
                    let last = self.apps.len() - 1;
                    self.replace_row_scope(last, scope);
                    assert(self@ =~= old_view.push(
                        fresh_record(user_id, d, app_user_id, attributes@.to_set()),
                    ));
                }
            },
        }
    }

    /// Takes `attribute_id` out of the attribute scope of every domain that
    /// `user_id` has registered. Nothing else changes.
    pub fn remove_attribute(&mut self, user_id: &UserId, attribute_id: &AttributeId)
        requires
            old(self).wf(),
        ensures
            final(self).wf(),
            final(self)@ == revoke(old(self)@, *user_id, *attribute_id),
    {
        let ghost old_view = self@;
        let ghost target = revoke(old_view, *user_id, *attribute_id);
        let mut i: usize = 0;
        while i < self.apps.len()
            invariant
                self.wf(),
                i <= self@.len(),
                self@.len() == old_view.len(),
                target == revoke(old_view, *user_id, *attribute_id),
                forall|k: int| 0 <= k < i ==> #[trigger] self@[k] == target[k],
                forall|k: int| i <= k < self@.len() ==> #[trigger] self@[k] == old_view[k],
            decreases self@.len() - i,
        {
            proof {
                assert(self@.len() == self.apps@.len());
                assert(self@[i as int] == self.apps@[i as int].record());
            }
            if self.apps[i].user_id == *user_id {
                let scope = without_attribute(&self.apps[i].attributes, *attribute_id);
                proof {
                    assert(self.apps@[i as int].attributes@.no_duplicates());
                }
                self.replace_row_scope(i, scope);
            }
            assert(self@[i as int] == target[i as int]);
            i = i + 1;
        }
        assert(self@ =~= target);
    }

    /// The domains that `user_id` has registered, each once, in no promised
    /// order; empty where it has registered none.
    pub fn domains(&self, user_id: UserId) -> (r: Vec<String>)
        requires
            self.wf(),
        ensures
            r@.map_values(|x: String| x@).to_set() == domain_set(self@, user_id),
            r@.map_values(|x: String| x@).no_duplicates(),
    {
        let mut r: Vec<String> = Vec::new();
        let ghost mut rows: Seq<int> = Seq::empty();
        let mut i: usize = 0;
        while i < self.apps.len()
            invariant
                self.wf(),
                i <= self@.len(),
                rows.len() == r@.len(),
                forall|k: int|
                    0 <= k < r@.len() ==> 0 <= #[trigger] rows[k] < i && self@[rows[k]].user_id
                        == user_id && self@[rows[k]].domain_name == r@[k]@,
                forall|k: int, l: int| 0 <= k < l < r@.len() ==> #[trigger] rows[k] < #[trigger] rows[l],
                forall|j: int|
                    0 <= j < i && (#[trigger] self@[j]).user_id == user_id ==> exists|k: int|
                        0 <= k < r@.len() && rows[k] == j,
            decreases self@.len() - i,
        {
            let e = &self.apps[i];
            proof {
                assert(self@[i as int] == e.record());
            }
            if e.user_id == user_id {
                let ghost before = rows;
                r.push(e.domain_name.clone());
                proof {
                    rows = rows.push(i as int);
                    assert forall|j: int|
                        0 <= j < i + 1 && (#[trigger] self@[j]).user_id == user_id implies exists|k: int|
                        0 <= k < r@.len() && rows[k] == j by {
                        if j < i {
                            let k = choose|k: int| 0 <= k < before.len() && before[k] == j;
                            assert(rows[k] == j);
                        } else {
                            assert(rows[before.len() as int] == j);
                        }
                    }
                }
            }
            i = i + 1;
        }
        let ghost names = r@.map_values(|x: String| x@);
        assert forall|k: int, l: int| 0 <= k < names.len() && 0 <= l < names.len() && k != l implies names[k] != names[l] by {
            if k < l {
                assert(rows[k] < rows[l]);
                assert(!(self@[rows[k]].user_id == self@[rows[l]].user_id
                    && self@[rows[k]].domain_name == self@[rows[l]].domain_name));
            } else {
                assert(rows[l] < rows[k]);
                assert(!(self@[rows[l]].user_id == self@[rows[k]].user_id
                    && self@[rows[l]].domain_name == self@[rows[k]].domain_name));
            }
        }
        assert forall|d: Seq<char>| names.to_set().contains(d) <==> domain_set(self@, user_id).contains(d) by {
            if names.to_set().contains(d) {
                let k = choose|k: int| 0 <= k < names.len() && names[k] == d;
                assert(self@[rows[k]].user_id == user_id);
            }
            if registered(self@, user_id, d) {
                let j = choose|j: int| 0 <= j < self@.len() && #[trigger] self@[j].user_id == user_id && self@[j].domain_name == d;
                assert(self@[j].user_id == user_id);
                let k = choose|k: int| 0 <= k < r@.len() && rows[k] == j;
                assert(names[k] == d);
            }
        }
        assert(names.to_set() =~= domain_set(self@, user_id));
        r
    }

    /// The attribute scope of the pseudonym `app_user_id`, each attribute
    /// once, or `None` where this registry never issued the pseudonym. A
    /// registered pseudonym with no attributes has an empty scope.
    pub fn attributes_by_id(&self, app_user_id: &AppUserId) -> (r: Option<&Vec<AttributeId>>)
        requires
            self.wf(),
        ensures
            !issued(self@, *app_user_id) ==> r.is_none(),
            forall|i: int|
                0 <= i < self@.len() && #[trigger] self@[i].app_user_id == *app_user_id ==> r.is_some()
                    && r.unwrap()@.to_set() == self@[i].attributes && r.unwrap()@.no_duplicates(),
    {
        match self.position_of_pseudonym(app_user_id) {
            None => None,
            Some(i) => {
                assert(self.apps@[i as int].attributes@.no_duplicates());
                Some(&self.apps[i].attributes)
            },
        }
    }

    /// The attribute scope of domain `domain_name` of `user_id`, each
    /// attribute once, or `None` where that domain is not registered.
    pub fn attributes(&self, user_id: &UserId, domain_name: String) -> (r: Option<&Vec<AttributeId>>)
        requires
            self.wf(),
        ensures
            !registered(self@, *user_id, domain_name@) ==> r.is_none(),
            forall|i: int|
                0 <= i < self@.len() && #[trigger] self@[i].user_id == *user_id && self@[i].domain_name
                    == domain_name@ ==> r.is_some() && r.unwrap()@.to_set() == self@[i].attributes
                    && r.unwrap()@.no_duplicates(),
    {
        match self.position_of_domain(user_id, &domain_name) {
            None => None,
            Some(i) => {
                assert forall|k: int|
                    0 <= k < self@.len() && #[trigger] self@[k].user_id == *user_id
                        && self@[k].domain_name == domain_name@ implies k == i by {
                    if k < i {
                        assert(!(self@[k].user_id == self@[i as int].user_id
                            && self@[k].domain_name == self@[i as int].domain_name));
                    } else if k > i {
                        assert(!(self@[i as int].user_id == self@[k].user_id
                            && self@[i as int].domain_name == self@[k].domain_name));
                    }
                }
                assert(self@[i as int] == self.apps@[i as int].record());
                let r = self.attributes_by_id(&self.apps[i].app_user_id);
                assert(self@[i as int].app_user_id == self.apps@[i as int].app_user_id);
                r
            },
        }
    }
}

} // verus!
