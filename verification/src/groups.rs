//! The group mutation engine: merges a target group list into an existing
//! profile snapshot and produces a new, signed group attribute.
//!
//! The merge builds a fresh outgoing profile that carries only the user id and
//! the active flag forward, collapses duplicate group names, stamps the
//! write-once `created` timestamp and the always-overwritten `last_modified`
//! timestamp, forces `verified`, stamps this pipeline's publisher authority,
//! and hands the attribute to a signer capability.

use vstd::prelude::*;

use crate::schema::AttributeMetadata;
use crate::schema::AttributeSignature;
use crate::schema::GroupAttribute;
use crate::schema::GroupAttributeView;
use crate::schema::Profile;
use crate::schema::ProfileView;
use crate::schema::PublisherAuthority;
use crate::schema::SignError;
use crate::schema::no_dups;

verus! {

/// The requested group names with duplicates collapsed: each name is kept at
/// its first occurrence.
pub open spec fn dedup_first(s: Seq<Seq<char>>) -> Seq<Seq<char>>
    decreases s.len(),
{
    if s.len() == 0 {
        Seq::empty()
    } else {
        let d = dedup_first(s.drop_last());
        if d.contains(s.last()) {
            d
        } else {
            d.push(s.last())
        }
    }
}

/// The group attribute after one merge at timestamp `now`, before signing:
/// `values` is replaced by the distinct requested names, `created` is set only
/// if the copied attribute had no `values` mapping yet or an empty `created`,
/// `last_modified` and `verified` are overwritten, the publisher authority is
/// stamped, and the copied signature is still in place.
pub open spec fn merged_attr(a: GroupAttributeView, groups: Seq<Seq<char>>, now: Seq<char>) -> GroupAttributeView {
    GroupAttributeView {
        values: Option::Some(dedup_first(groups)),
        created: if a.values is None || a.created.len() == 0 {
            now
        } else {
            a.created
        },
        last_modified: now,
        verified: true,
        publisher: PublisherAuthority::Mozilliansorg,
        signature: a.signature,
    }
}

/// The outgoing profile after one merge at timestamp `now`, before signing:
/// only the user id and the active flag are carried forward.
pub open spec fn merged_profile(p: ProfileView, groups: Seq<Seq<char>>, now: Seq<char>) -> ProfileView {
    ProfileView {
        user_id: p.user_id,
        active: p.active,
        mozilliansorg: merged_attr(p.mozilliansorg, groups, now),
    }
}

/// The same attribute with its signature value replaced.
pub open spec fn attr_with_signature(a: GroupAttributeView, sig: Seq<char>) -> GroupAttributeView {
    GroupAttributeView { signature: sig, ..a }
}

/// The outgoing profile after one merge at timestamp `now`, signed with `sig`.
pub open spec fn signed_merge(p: ProfileView, groups: Seq<Seq<char>>, now: Seq<char>, sig: Seq<char>) -> ProfileView {
    ProfileView {
        user_id: p.user_id,
        active: p.active,
        mozilliansorg: attr_with_signature(merged_attr(p.mozilliansorg, groups, now), sig),
    }
}

/// Relies on chrono's `Utc::now` and `DateTime::to_rfc3339_opts`: the current
/// UTC time rendered as an RFC 3339 string at second precision, which is never
/// empty. The instant itself depends on the clock, so nothing more is assumed.
#[verifier::external_body]
fn now_utc_secs() -> (r: String)
    ensures
        r@.len() > 0,
{
    chrono::Utc::now().to_rfc3339_opts(chrono::SecondsFormat::Secs, true)
}

/// A capability that computes a cryptographic signature over a group
/// attribute's canonical form and attaches it in place. Implementations live
/// outside the verified library (the store's secret store in production, a
/// deterministic fake in tests) and are trusted to meet this contract.
pub trait Signer {
    /// On success the attribute is unchanged except for its signature value,
    /// which now holds a non-empty signature.
    fn sign_attribute(&self, attr: &mut GroupAttribute) -> (r: Result<(), SignError>)
        ensures
            r is Ok ==> final(attr)@ == attr_with_signature(old(attr)@, final(attr)@.signature)
                && final(attr)@.signature.len() > 0,
    ;
}

proof fn lemma_push_contains(s: Seq<Seq<char>>, x: Seq<char>, y: Seq<char>)
    ensures
        s.push(x).contains(y) <==> (s.contains(y) || x == y),
{
    if s.contains(y) {
        let i = choose|i: int| 0 <= i < s.len() && s[i] == y;
        assert(s.push(x)[i] == y);
    }
    if x == y {
        assert(s.push(x)[s.len() as int] == y);
    }
    if s.push(x).contains(y) && x != y {
        let i = choose|i: int| 0 <= i < s.push(x).len() && s.push(x)[i] == y;
        assert(s[i] == y);
    }
}

/// Group-set law: after a merge, `values` lists exactly the distinct requested
/// group names — duplicates collapse, nothing is added, nothing is lost.
pub proof fn lemma_dedup_first_set(s: Seq<Seq<char>>)
    ensures
        no_dups(dedup_first(s)),
        forall|x: Seq<char>| #[trigger] dedup_first(s).contains(x) <==> s.contains(x),
    decreases s.len(),
{
    if s.len() == 0 {
        assert forall|x: Seq<char>| #[trigger] dedup_first(s).contains(x) <==> s.contains(x) by {
            assert(!dedup_first(s).contains(x));
            assert(!s.contains(x));
        }
    } else {
        let butlast = s.drop_last();
        let d0 = dedup_first(butlast);
        lemma_dedup_first_set(butlast);
        assert(s =~= butlast.push(s.last()));
        assert forall|x: Seq<char>| #[trigger] dedup_first(s).contains(x) <==> s.contains(x) by {
            lemma_push_contains(butlast, s.last(), x);
            if !d0.contains(s.last()) {
                lemma_push_contains(d0, s.last(), x);
            }
        }
        if !d0.contains(s.last()) {
            assert forall|i: int, j: int|
                0 <= i < j < dedup_first(s).len() implies dedup_first(s)[i] != dedup_first(s)[j] by {
                if j == d0.len() {
                    assert(dedup_first(s)[j] == s.last());
                    assert(d0[i] == dedup_first(s)[i]);
                    if d0[i] == s.last() {
                        assert(d0.contains(s.last()));
                    }
                }
            }
        }
    }
}

fn contains_string(v: &Vec<String>, s: &String) -> (r: bool)
    ensures
        r == v.deep_view().contains(s@),
{
    let mut i: usize = 0;
    while i < v.len()
        invariant
            i <= v.len(),
            forall|j: int| 0 <= j < i ==> v.deep_view()[j] != s@,
        decreases v.len() - i,
    {
        if v[i] == *s {
            proof {
                assert(v.deep_view()[i as int] == s@);
            }
            return true;
        }
        i = i + 1;
    }
    proof {
        if v.deep_view().contains(s@) {
            let j = choose|j: int| 0 <= j < v.deep_view().len() && v.deep_view()[j] == s@;
            assert(v.deep_view()[j] != s@);
        }
    }
    false
}

/// Collapses duplicate group names, keeping each name at its first occurrence.
fn dedup_groups(groups: Vec<String>) -> (r: Vec<String>)
    ensures
        r.deep_view() == dedup_first(groups.deep_view()),
{
    let ghost gd = groups.deep_view();
    let mut r: Vec<String> = Vec::new();
    let mut i: usize = 0;
    assert(r.deep_view() =~= dedup_first(gd.take(0)));
    while i < groups.len()
        invariant
            i <= groups.len(),
            gd == groups.deep_view(),
            r.deep_view() == dedup_first(gd.take(i as int)),
        decreases groups.len() - i,
    {
        let ghost prefix = gd.take(i as int + 1);
        proof {
            assert(prefix.drop_last() =~= gd.take(i as int));
            assert(prefix.last() == gd[i as int]);
        }
        if !contains_string(&r, &groups[i]) {
            let g = groups[i].clone();
            r.push(g);
            proof {
                assert(r.deep_view() =~= dedup_first(gd.take(i as int)).push(gd[i as int]));
            }
        }
        i = i + 1;
    }
    proof {
        assert(gd.take(groups.deep_view().len() as int) =~= gd);
    }
    r
}

/// Builds the outgoing profile for one merge at the given timestamp, before
/// signing. Deterministic: the whole result is pinned by `merged_profile`.
pub fn merge_groups(profile: Profile, groups: Vec<String>, now: &String) -> (r: Profile)
    ensures
        r@ == merged_profile(profile@, groups.deep_view(), now@),
{
    let Profile { user_id, active, mozilliansorg } = profile;
    let GroupAttribute { values: old_values, metadata: old_metadata, signature: old_signature } =
        mozilliansorg;
    let AttributeMetadata { created: old_created, last_modified: _, verified: _ } = old_metadata;
    let created = if old_values.is_none() || old_created.as_str().is_empty() {
        now.clone()
    } else {
        old_created
    };
    let values = dedup_groups(groups);
    Profile {
        user_id,
        active,
        mozilliansorg: GroupAttribute {
            values: Option::Some(values),
            metadata: AttributeMetadata { created, last_modified: now.clone(), verified: true },
            signature: AttributeSignature {
                publisher: PublisherAuthority::Mozilliansorg,
                value: old_signature.value,
            },
        },
    }
}

/// Merge-and-sign: the outgoing profile carries only the user id and active
/// flag forward, `values` holds exactly the distinct requested names,
/// `created` is stamped only when absent, `last_modified` is the call's
/// timestamp, `verified` is forced, and the attribute is signed. A signer
/// failure aborts the whole operation and is surfaced verbatim; there is no
/// other failure mode.
pub fn update_groups<S: Signer>(profile: Profile, groups: Vec<String>, signer: &S) -> (r: Result<
    Profile,
    SignError,
>)
    ensures
        r matches Ok(p) ==> exists|now: Seq<char>, sig: Seq<char>|
            now.len() > 0 && sig.len() > 0 && p@ == #[trigger] signed_merge(
                profile@,
                groups.deep_view(),
                now,
                sig,
            ),
        r matches Ok(p) ==> p@.mozilliansorg.verified && p@.mozilliansorg.signature.len() > 0
            && p@.mozilliansorg.values == Option::Some(dedup_first(groups.deep_view()))
            && p@.mozilliansorg.created.len() > 0 && p.wf() && p@.user_id == profile@.user_id
            && p@.active == profile@.active,
{
    let ghost gd = groups.deep_view();
    let now = now_utc_secs();
    let mut updated = merge_groups(profile, groups, &now);
    let result = signer.sign_attribute(&mut updated.mozilliansorg);
    match result {
        Result::Ok(()) => {
            proof {
                let sigv = updated.mozilliansorg@.signature;
                assert(updated@ == signed_merge(profile@, gd, now@, sigv));
                assert(exists|now2: Seq<char>, sig2: Seq<char>|
                    now2.len() > 0 && sig2.len() > 0 && updated@ == #[trigger] signed_merge(
                        profile@,
                        gd,
                        now2,
                        sig2,
                    ));
                lemma_dedup_first_set(gd);
            }
            Result::Ok(updated)
        },
        Result::Err(e) => Result::Err(e),
    }
}

/// Created-once law: a merge into a profile whose group attribute has an empty
/// `created` stamps the call's timestamp into `created`, and a second merge at
/// any later timestamp leaves that first `created` value unchanged.
pub proof fn lemma_created_once(
    p: ProfileView,
    g1: Seq<Seq<char>>,
    g2: Seq<Seq<char>>,
    t1: Seq<char>,
    t2: Seq<char>,
    s1: Seq<char>,
    s2: Seq<char>,
)
    requires
        p.mozilliansorg.created.len() == 0,
        t1.len() > 0,
    ensures
        signed_merge(p, g1, t1, s1).mozilliansorg.created == t1,
        signed_merge(p, g1, t1, s1).mozilliansorg.last_modified == t1,
        signed_merge(signed_merge(p, g1, t1, s1), g2, t2, s2).mozilliansorg.created == t1,
        signed_merge(signed_merge(p, g1, t1, s1), g2, t2, s2).mozilliansorg.last_modified == t2,
{
}

} // verus!
