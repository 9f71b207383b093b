//! Who a login belongs to.
use crate::json::{
    copy_opt, entry_trees, json_opt_str, no_entries, object, opt_json, opt_str, opt_text, opt_tree,
    put, start_entries, str_or, text_or, Json, JsonTree,
};
use crate::text::{concat3, trim, trimmed};
use vstd::prelude::*;

verus! {

/// Who a login belongs to.
#[derive(Debug, PartialEq, Eq)]
pub struct AuthIdentity {
    pub email: Option<String>,
    pub user_id: Option<String>,
    pub first_name: Option<String>,
    pub last_name: Option<String>,
    pub expires_at: Option<String>,
    pub auth_mode: Option<String>,
}

/// What an identity holds.
#[verifier::ext_equal]
pub struct Identity {
    pub email: Option<Seq<char>>,
    pub user_id: Option<Seq<char>>,
    pub first_name: Option<Seq<char>>,
    pub last_name: Option<Seq<char>>,
    pub expires_at: Option<Seq<char>>,
    pub auth_mode: Option<Seq<char>>,
}

impl View for AuthIdentity {
    type V = Identity;

    open spec fn view(&self) -> Identity {
        Identity {
            email: opt_text(self.email),
            user_id: opt_text(self.user_id),
            first_name: opt_text(self.first_name),
            last_name: opt_text(self.last_name),
            expires_at: opt_text(self.expires_at),
            auth_mode: opt_text(self.auth_mode),
        }
    }
}

/// What an optional identity holds.
pub open spec fn opt_identity(id: Option<AuthIdentity>) -> Option<Identity> {
    match id {
        Some(i) => Some(i@),
        None => None,
    }
}

/// The first and the last name with a blank between them, without white space at the ends, where
/// anything is left.
pub open spec fn full_name(id: Identity) -> Option<Seq<char>> {
    let s = trimmed(
        trimmed(text_or(id.first_name, ""@)) + " "@ + trimmed(text_or(id.last_name, ""@)),
    );
    if s.len() == 0 {
        None
    } else {
        Some(s)
    }
}

/// What is shown of an identity.
pub open spec fn public_identity(id: Identity) -> JsonTree {
    JsonTree::Object(
        no_entries()
            .push(("auth_mode"@, opt_tree(id.auth_mode)))
            .push(("email"@, opt_tree(id.email)))
            .push(("expires_at"@, opt_tree(id.expires_at)))
            .push(("name"@, opt_tree(full_name(id))))
            .push(("user_id"@, opt_tree(id.user_id))),
    )
}

impl AuthIdentity {
    /// The first and the last name, where either is known.
    pub fn display_name(&self) -> (r: Option<String>)
        ensures
            opt_text(r) == full_name(self@),
    {
        let first = trim(str_or(&self.first_name, ""));
        let last = trim(str_or(&self.last_name, ""));
        let s = trim(concat3(first.as_str(), " ", last.as_str()).as_str());
        if s.as_str().is_empty() {
            None
        } else {
            Some(s)
        }
    }

    /// What is shown of the identity.
    pub fn as_public(&self) -> (r: Json)
        ensures
            r@ == public_identity(self@),
    {
        let mut e = start_entries();
        put(&mut e, "auth_mode", opt_json(&self.auth_mode));
        put(&mut e, "email", opt_json(&self.email));
        put(&mut e, "expires_at", opt_json(&self.expires_at));
        put(&mut e, "name", opt_json(&self.display_name()));
        put(&mut e, "user_id", opt_json(&self.user_id));
        object(e)
    }

    /// A copy of the identity.
    pub fn copy(&self) -> (r: AuthIdentity)
        ensures
            r@ == self@,
    {
        AuthIdentity {
            email: copy_opt(&self.email),
            user_id: copy_opt(&self.user_id),
            first_name: copy_opt(&self.first_name),
            last_name: copy_opt(&self.last_name),
            expires_at: copy_opt(&self.expires_at),
            auth_mode: copy_opt(&self.auth_mode),
        }
    }
}

/// An object that describes a login: it has an address, a user or a key.
pub open spec fn is_login(t: JsonTree) -> bool {
    t.field("email"@) is Some || t.field("user_id"@) is Some || t.field("key"@) is Some
}

/// The identity that a login names.
pub open spec fn login_identity(t: JsonTree) -> Identity {
    Identity {
        email: opt_str(t, "email"@),
        user_id: match opt_str(t, "user_id"@) {
            Some(s) => Some(s),
            None => opt_str(t, "principal_id"@),
        },
        first_name: opt_str(t, "first_name"@),
        last_name: opt_str(t, "last_name"@),
        expires_at: opt_str(t, "expires_at"@),
        auth_mode: opt_str(t, "auth_mode"@),
    }
}

/// The identity of the first login among some entries.
pub open spec fn first_login(e: Seq<(Seq<char>, JsonTree)>) -> Option<Identity>
    decreases e.len(),
{
    if e.len() == 0 {
        None
    } else if is_login(e[0].1) {
        Some(login_identity(e[0].1))
    } else {
        first_login(e.skip(1))
    }
}

/// The identity that an authentication file names: that of its first login.
pub open spec fn identity_of(t: JsonTree) -> Option<Identity> {
    match t {
        JsonTree::Object(e) => first_login(e),
        _ => None,
    }
}

/// The user that an authentication file names.
pub open spec fn user_of(t: JsonTree) -> Option<Seq<char>> {
    match identity_of(t) {
        Some(id) => id.user_id,
        None => None,
    }
}

proof fn lemma_first_login(e: Seq<(Seq<char>, JsonTree)>, k: int)
    requires
        0 <= k <= e.len(),
        forall|j: int| 0 <= j < k ==> !is_login((#[trigger] e[j]).1),
        k < e.len() ==> is_login(e[k].1),
    ensures
        first_login(e) == (if k < e.len() {
            Some(login_identity(e[k].1))
        } else {
            None
        }),
    decreases k,
{
    if k > 0 {
        assert(!is_login(e[0].1));
        assert forall|j: int| 0 <= j < k - 1 implies !is_login((#[trigger] e.skip(1)[j]).1) by {
            assert(!is_login(e[j + 1].1));
        }
        lemma_first_login(e.skip(1), k - 1);
    }
}

/// The identity that an authentication file names: that of its first login.
pub fn identity_from_auth(v: &Json) -> (r: Option<AuthIdentity>)
    ensures
        opt_identity(r) == identity_of(v@),
{
    proof {
        v.lemma_tree();
    }
    match v {
        Json::Object(entries) => {
            let ghost e = entry_trees(entries@);
            for i in 0..entries.len()
                invariant
                    e == entry_trees(entries@),
                    v@ == JsonTree::Object(e),
                    forall|j: int| 0 <= j < i ==> !is_login((#[trigger] e[j]).1),
            {
                let t = &entries[i].1;
                assert(e[i as int].1 == t@);
                if t.has("email") || t.has("user_id") || t.has("key") {
                    proof {
                        lemma_first_login(e, i as int);
                    }
                    return Some(
                        AuthIdentity {
                            email: json_opt_str(t, "email"),
                            user_id: match json_opt_str(t, "user_id") {
                                Some(s) => Some(s),
                                None => json_opt_str(t, "principal_id"),
                            },
                            first_name: json_opt_str(t, "first_name"),
                            last_name: json_opt_str(t, "last_name"),
                            expires_at: json_opt_str(t, "expires_at"),
                            auth_mode: json_opt_str(t, "auth_mode"),
                        },
                    );
                }
            }
            proof {
                lemma_first_login(e, e.len() as int);
            }
            None
        },
        _ => None,
    }
}

/// The user that an authentication file names.
pub fn user_from_auth(v: &Json) -> (r: Option<String>)
    ensures
        opt_text(r) == user_of(v@),
{
    match identity_from_auth(v) {
        Some(id) => id.user_id,
        None => None,
    }
}

} // verus!
