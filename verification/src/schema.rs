//! The slice of a user's identity profile that the update pipeline reads and
//! writes: the user id, the active flag, and the mutable group-membership
//! attribute with its provenance metadata and signature block.

use vstd::prelude::*;

verus! {

/// The authority stamped on an attribute's signature block, identifying which
/// system last wrote the attribute.
#[derive(Clone, Copy, Debug, PartialEq, Eq, Structural)]
pub enum PublisherAuthority {
    Ldap,
    Mozilliansorg,
    Hris,
    Cis,
    AccessProvider,
}

/// Provenance metadata of a single profile attribute. `created` is write-once;
/// `last_modified` is overwritten on every mutation; `verified` is forced to
/// true by every mutation this pipeline performs.
#[derive(Clone, Debug)]
pub struct AttributeMetadata {
    pub created: String,
    pub last_modified: String,
    pub verified: bool,
}

/// The signature block of a profile attribute: the publisher authority and the
/// cryptographic signature over the attribute's canonical form.
#[derive(Clone, Debug)]
pub struct AttributeSignature {
    pub publisher: PublisherAuthority,
    pub value: String,
}

/// The group-membership attribute. `values` maps each group name to an unused
/// per-group value (always absent in current use), so it is carried as the
/// list of group names; a missing mapping is distinct from an empty one.
#[derive(Clone, Debug)]
pub struct GroupAttribute {
    pub values: Option<Vec<String>>,
    pub metadata: AttributeMetadata,
    pub signature: AttributeSignature,
}

/// The slice of a profile that the pipeline touches. Everything else in the
/// store's profile record is intentionally dropped from outgoing updates.
#[derive(Clone, Debug)]
pub struct Profile {
    pub user_id: String,
    pub active: bool,
    pub mozilliansorg: GroupAttribute,
}

/// Mathematical model of a group attribute, with the metadata and signature
/// blocks flattened.
pub ghost struct GroupAttributeView {
    pub values: Option<Seq<Seq<char>>>,
    pub created: Seq<char>,
    pub last_modified: Seq<char>,
    pub verified: bool,
    pub publisher: PublisherAuthority,
    pub signature: Seq<char>,
}

/// Mathematical model of a profile snapshot.
pub ghost struct ProfileView {
    pub user_id: Seq<char>,
    pub active: bool,
    pub mozilliansorg: GroupAttributeView,
}

impl View for GroupAttribute {
    type V = GroupAttributeView;

    open spec fn view(&self) -> GroupAttributeView {
        GroupAttributeView {
            values: match self.values {
                Option::Some(v) => Option::Some(v.deep_view()),
                Option::None => Option::None,
            },
            created: self.metadata.created@,
            last_modified: self.metadata.last_modified@,
            verified: self.metadata.verified,
            publisher: self.signature.publisher,
            signature: self.signature.value@,
        }
    }
}

impl View for Profile {
    type V = ProfileView;

    open spec fn view(&self) -> ProfileView {
        ProfileView {
            user_id: self.user_id@,
            active: self.active,
            mozilliansorg: self.mozilliansorg@,
        }
    }
}

/// No group name occurs twice.
pub open spec fn no_dups(vs: Seq<Seq<char>>) -> bool {
    forall|i: int, j: int| 0 <= i < j < vs.len() ==> vs[i] != vs[j]
}

impl GroupAttributeView {
    /// A well-formed attribute never lists the same group twice.
    pub open spec fn wf(self) -> bool {
        match self.values {
            Option::Some(vs) => no_dups(vs),
            Option::None => true,
        }
    }
}

impl Profile {
    pub open spec fn wf(self) -> bool {
        self@.mozilliansorg.wf()
    }
}

impl Default for Profile {
    /// An empty snapshot: no groups mapping yet, empty timestamps, unverified,
    /// no signature.
    fn default() -> (r: Self)
        ensures
            r@.user_id == Seq::<char>::empty(),
            !r@.active,
            r@.mozilliansorg.values is None,
            r@.mozilliansorg.created == Seq::<char>::empty(),
            r@.mozilliansorg.last_modified == Seq::<char>::empty(),
            !r@.mozilliansorg.verified,
            r@.mozilliansorg.publisher == PublisherAuthority::Mozilliansorg,
            r@.mozilliansorg.signature == Seq::<char>::empty(),
    {
        Profile {
            user_id: String::new(),
            active: false,
            mozilliansorg: GroupAttribute {
                values: Option::None,
                metadata: AttributeMetadata {
                    created: String::new(),
                    last_modified: String::new(),
                    verified: false,
                },
                signature: AttributeSignature {
                    publisher: PublisherAuthority::Mozilliansorg,
                    value: String::new(),
                },
            },
        }
    }
}

/// Error returned by a signer capability; the message carries the signer's own
/// words. Signing failure aborts the whole merge-and-sign operation.
#[derive(Clone, Debug)]
pub struct SignError {
    pub message: String,
}

/// Error returned by the profile store client, for a failed fetch or a failed
/// publish. Such failures abort the affected request only.
#[derive(Clone, Debug)]
pub struct StoreError {
    pub message: String,
}

} // verus!
