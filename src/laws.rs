use vstd::prelude::*;

use crate::application_map::{
    after_register, after_set_attributes, domain_set, issued, records_wf, register_outcome,
    registered, revoke, AppRecord,
};
use crate::ids::{AppUserId, AttributeId, UserId};

verus! {

/// Registering the same domain of the same identity twice: the second call
/// returns `None` and leaves the records as the first call left them.
pub proof fn lemma_register_twice(s: Seq<AppRecord>, g: UserId, d: Seq<char>, p: AppUserId)
    ensures
        register_outcome(after_register(s, g, d, p), g, d, p) == None::<AppUserId>,
        after_register(after_register(s, g, d, p), g, d, p) == after_register(s, g, d, p),
{
    let s1 = after_register(s, g, d, p);
    if !registered(s, g, d) && !issued(s, p) {
        assert(s1[s.len() as int].user_id == g);
        assert(registered(s1, g, d));
    }
}

/// Once issued, a pseudonym stays with its registration: no operation moves
/// a record, changes its identity or domain, or gives it another pseudonym.
pub proof fn lemma_pseudonyms_stable(
    s: Seq<AppRecord>,
    g: UserId,
    d: Seq<char>,
    p: AppUserId,
    a: Set<AttributeId>,
    attribute_id: AttributeId,
    i: int,
)
    requires
        0 <= i < s.len(),
    ensures
        after_register(s, g, d, p)[i] == s[i],
        after_set_attributes(s, g, d, p, a)[i].user_id == s[i].user_id,
        after_set_attributes(s, g, d, p, a)[i].domain_name == s[i].domain_name,
        after_set_attributes(s, g, d, p, a)[i].app_user_id == s[i].app_user_id,
        revoke(s, g, attribute_id)[i].user_id == s[i].user_id,
        revoke(s, g, attribute_id)[i].domain_name == s[i].domain_name,
        revoke(s, g, attribute_id)[i].app_user_id == s[i].app_user_id,
{
}

/// A pseudonym resolves only where a registration issued it: none is issued
/// in an empty registry, and after an operation a pseudonym is issued only
/// where it was before or the operation registered it.
pub proof fn lemma_only_registration_issues(
    s: Seq<AppRecord>,
    g: UserId,
    d: Seq<char>,
    p: AppUserId,
    a: Set<AttributeId>,
    attribute_id: AttributeId,
    q: AppUserId,
)
    ensures
        !issued(Seq::<AppRecord>::empty(), q),
        issued(after_register(s, g, d, p), q) ==> issued(s, q) || register_outcome(s, g, d, p)
            == Some(q),
        issued(after_set_attributes(s, g, d, p, a), q) ==> issued(s, q) || register_outcome(
            s,
            g,
            d,
            p,
        ) == Some(q),
        issued(revoke(s, g, attribute_id), q) == issued(s, q),
{
    let s1 = after_register(s, g, d, p);
    if issued(s1, q) && !issued(s, q) {
        let i = choose|i: int| 0 <= i < s1.len() && #[trigger] s1[i].app_user_id == q;
        if i < s.len() {
            assert(s[i].app_user_id == q);
        }
    }
    let s2 = after_set_attributes(s, g, d, p, a);
    if issued(s2, q) && !issued(s, q) {
        let i = choose|i: int| 0 <= i < s2.len() && #[trigger] s2[i].app_user_id == q;
        if i < s.len() {
            assert(s[i].app_user_id == q);
        }
    }
    let s3 = revoke(s, g, attribute_id);
    if issued(s3, q) {
        let i = choose|i: int| 0 <= i < s3.len() && #[trigger] s3[i].app_user_id == q;
        assert(s[i].app_user_id == q);
    }
    if issued(s, q) {
        let i = choose|i: int| 0 <= i < s.len() && #[trigger] s[i].app_user_id == q;
        assert(s3[i].app_user_id == q);
    }
}

/// A pseudonym that `register` returns resolves to the identity that
/// registered it, and the domain is among that identity's domains.
pub proof fn lemma_register_round_trip(
    s: Seq<AppRecord>,
    g: UserId,
    d: Seq<char>,
    p: AppUserId,
    q: AppUserId,
)
    requires
        records_wf(s),
        register_outcome(s, g, d, p) == Some(q),
    ensures
        issued(after_register(s, g, d, p), q),
        forall|i: int|
            0 <= i < after_register(s, g, d, p).len() && #[trigger] after_register(
                s,
                g,
                d,
                p,
            )[i].app_user_id == q ==> after_register(s, g, d, p)[i].user_id == g,
        domain_set(after_register(s, g, d, p), g).contains(d),
{
    let s1 = after_register(s, g, d, p);
    assert(s1[s.len() as int].app_user_id == q);
    assert(s1[s.len() as int].user_id == g);
    assert forall|i: int| 0 <= i < s1.len() && #[trigger] s1[i].app_user_id == q implies s1[i].user_id
        == g by {
        if i < s.len() {
            assert(s[i].app_user_id == q);
        }
    }
}

/// Setting the attributes of a domain that was never registered, under a
/// pseudonym not issued before, registers the domain with exactly those
/// attributes.
pub proof fn lemma_lazy_registration(
    s: Seq<AppRecord>,
    g: UserId,
    d: Seq<char>,
    p: AppUserId,
    a: Set<AttributeId>,
)
    requires
        !registered(s, g, d),
        !issued(s, p),
    ensures
        registered(after_set_attributes(s, g, d, p, a), g, d),
        forall|i: int|
            0 <= i < after_set_attributes(s, g, d, p, a).len() && #[trigger] after_set_attributes(
                s,
                g,
                d,
                p,
                a,
            )[i].user_id == g && after_set_attributes(s, g, d, p, a)[i].domain_name == d
                ==> after_set_attributes(s, g, d, p, a)[i].attributes == a,
{
    let s1 = after_set_attributes(s, g, d, p, a);
    assert(s1[s.len() as int].user_id == g);
    assert forall|i: int|
        0 <= i < s1.len() && #[trigger] s1[i].user_id == g && s1[i].domain_name == d implies s1[i].attributes
        == a by {
        if i < s.len() {
            assert(s[i].user_id == g);
        }
    }
}

/// Setting the attributes of a domain twice leaves the second set, not the
/// union of both.
pub proof fn lemma_set_attributes_overwrites(
    s: Seq<AppRecord>,
    g: UserId,
    d: Seq<char>,
    p: AppUserId,
    a: Set<AttributeId>,
    b: Set<AttributeId>,
)
    requires
        registered(s, g, d) || !issued(s, p),
    ensures
        registered(after_set_attributes(after_set_attributes(s, g, d, p, a), g, d, p, b), g, d),
        forall|i: int|
            0 <= i < after_set_attributes(after_set_attributes(s, g, d, p, a), g, d, p, b).len()
                && #[trigger] after_set_attributes(
                after_set_attributes(s, g, d, p, a),
                g,
                d,
                p,
                b,
            )[i].user_id == g && after_set_attributes(
                after_set_attributes(s, g, d, p, a),
                g,
                d,
                p,
                b,
            )[i].domain_name == d ==> after_set_attributes(
                after_set_attributes(s, g, d, p, a),
                g,
                d,
                p,
                b,
            )[i].attributes == b,
{
    let s1 = after_set_attributes(s, g, d, p, a);
    if registered(s, g, d) {
        let i = choose|i: int| 0 <= i < s.len() && #[trigger] s[i].user_id == g && s[i].domain_name == d;
        assert(s1[i].user_id == g);
    } else {
        assert(s1[s.len() as int].user_id == g);
    }
    assert(registered(s1, g, d));
    let s2 = after_set_attributes(s1, g, d, p, b);
    let i = choose|i: int| 0 <= i < s1.len() && #[trigger] s1[i].user_id == g && s1[i].domain_name == d;
    assert(s2[i].user_id == g);
}

/// Revoking an attribute of an identity takes it out of the scope of every
/// domain of that identity, and leaves the scopes of other identities as
/// they were.
pub proof fn lemma_revoke_everywhere(s: Seq<AppRecord>, g: UserId, attribute_id: AttributeId)
    ensures
        revoke(s, g, attribute_id).len() == s.len(),
        forall|i: int|
            0 <= i < s.len() && s[i].user_id == g ==> !(#[trigger] revoke(s, g, attribute_id)[i]).attributes.contains(attribute_id)
                && revoke(s, g, attribute_id)[i].attributes == s[i].attributes.remove(attribute_id),
        forall|i: int|
            0 <= i < s.len() && s[i].user_id != g ==> #[trigger] revoke(s, g, attribute_id)[i] == s[i],
{
}

} // verus!
