//! The password cache of one session.
//!
//! A password is remembered together with the fingerprint of the store for
//! which it was checked. It is handed out again only for that fingerprint:
//! a lookup with any other fingerprint forgets it.

use vstd::prelude::*;
use vstd::string::StringExecFns;
use crate::cipher::decrypt_secret_key;
use crate::cipher::unlocks;
use crate::cipher::EncryptedSecretKey;
use crate::cipher::Envelope;
use crate::error::VaultError;
use crate::order::same_text;

verus! {

/// A remembered password with the fingerprint it was checked for.
pub struct Remembered {
    pub password: Seq<char>,
    pub fingerprint: Seq<char>,
}

/// What a lookup hands out: the remembered password where one is held for
/// exactly this fingerprint.
pub open spec fn recalled(cache: Option<Remembered>, fingerprint: Seq<char>) -> Option<Seq<char>> {
    match cache {
        Some(entry) => if entry.fingerprint == fingerprint {
            Some(entry.password)
        } else {
            None
        },
        None => None,
    }
}

/// What a lookup leaves in the cache: the entry where it is held for this
/// fingerprint, nothing otherwise.
pub open spec fn kept(cache: Option<Remembered>, fingerprint: Seq<char>) -> Option<Remembered> {
    match cache {
        Some(entry) => if entry.fingerprint == fingerprint {
            cache
        } else {
            None
        },
        None => None,
    }
}

/// The answer of [`PasswordCache::get_or_prompt`]: the password to use,
/// `None` where the caller has to ask for one, or the failure of a
/// candidate that does not open the envelope.
pub open spec fn password_answer(
    cache: Option<Remembered>,
    fingerprint: Seq<char>,
    envelope: Envelope,
    entered: Option<Seq<char>>,
) -> Result<Option<Seq<char>>, VaultError> {
    match recalled(cache, fingerprint) {
        Some(password) => Ok(Some(password)),
        None => match entered {
            None => Ok(None),
            Some(candidate) => if unlocks(envelope, candidate) {
                Ok(Some(candidate))
            } else {
                Err(VaultError::Authentication)
            },
        },
    }
}

/// The cache that [`PasswordCache::get_or_prompt`] leaves: an entry for
/// this fingerprint is kept, any other is forgotten, and a candidate is
/// remembered only once it has opened the envelope.
pub open spec fn cache_after(
    cache: Option<Remembered>,
    fingerprint: Seq<char>,
    envelope: Envelope,
    entered: Option<Seq<char>>,
) -> Option<Remembered> {
    match recalled(cache, fingerprint) {
        Some(_) => cache,
        None => match entered {
            None => None,
            Some(candidate) => if unlocks(envelope, candidate) {
                Some(Remembered { password: candidate, fingerprint })
            } else {
                None
            },
        },
    }
}

/// The password cache of a session: at most one password, with the
/// fingerprint of the store for which it was checked.
pub struct PasswordCache {
    entry: Option<(String, String)>,
}

impl View for PasswordCache {
    type V = Option<Remembered>;

    closed spec fn view(&self) -> Option<Remembered> {
        match self.entry {
            Some(pair) => Some(Remembered { password: pair.0@, fingerprint: pair.1@ }),
            None => None,
        }
    }
}

impl PasswordCache {
    /// The cache of a new session, which remembers nothing.
    pub fn new() -> (cache: PasswordCache)
        ensures
            cache@ is None,
    {
        PasswordCache { entry: None }
    }

    /// Forgets the remembered password.
    pub fn clear(&mut self)
        ensures
            final(self)@ is None,
    {
        self.entry = None;
    }

    /// Remembers a password for a fingerprint, in place of any other.
    pub fn remember(&mut self, password: &str, fingerprint: &str)
        ensures
            final(self)@ == Some(Remembered { password: password@, fingerprint: fingerprint@ }),
    {
        self.entry = Some((String::from_str(password), String::from_str(fingerprint)));
    }

    /// Hands out the remembered password if it is held for this
    /// fingerprint. A password held for another fingerprint is forgotten.
    pub fn lookup(&mut self, fingerprint: &str) -> (found: Option<String>)
        ensures
            match found {
                Some(password) => recalled(old(self)@, fingerprint@) == Some(password@),
                None => recalled(old(self)@, fingerprint@) is None,
            },
            final(self)@ == kept(old(self)@, fingerprint@),
    {
        let found = match &self.entry {
            Some(pair) => if same_text(pair.1.as_str(), fingerprint) {
                Some(pair.0.clone())
            } else {
                None
            },
            None => None,
        };
        if found.is_none() {
            self.entry = None;
        }
        found
    }

    /// Gets the password for a store with this fingerprint.
    ///
    /// A password remembered for this fingerprint is returned as it is. A
    /// password remembered for another fingerprint is forgotten, and the
    /// call goes on as if none were held. Without a remembered password,
    /// `entered` decides: with `None` the answer is `Ok(None)`, which asks
    /// the caller to prompt and call again; a candidate is tried on the
    /// envelope, and is remembered and returned if it opens it, while one
    /// that does not fails with `Authentication` and is not remembered.
    pub fn get_or_prompt(
        &mut self,
        fingerprint: &str,
        envelope: &EncryptedSecretKey,
        entered: Option<&str>,
    ) -> (r: Result<Option<String>, VaultError>)
        ensures
            match r {
                Ok(Some(password)) => password_answer(
                    old(self)@,
                    fingerprint@,
                    envelope@,
                    entered_view(entered),
                ) == Ok::<Option<Seq<char>>, VaultError>(Some(password@)),
                Ok(None) => password_answer(
                    old(self)@,
                    fingerprint@,
                    envelope@,
                    entered_view(entered),
                ) == Ok::<Option<Seq<char>>, VaultError>(None),
                Err(e) => password_answer(
                    old(self)@,
                    fingerprint@,
                    envelope@,
                    entered_view(entered),
                ) == Err::<Option<Seq<char>>, VaultError>(e),
            },
            final(self)@ == cache_after(old(self)@, fingerprint@, envelope@, entered_view(entered)),
    {
        match self.lookup(fingerprint) {
            Some(password) => Ok(Some(password)),
            None => match entered {
                None => Ok(None),
                Some(candidate) => match decrypt_secret_key(envelope, candidate) {
                    Ok(_) => {
                        self.remember(candidate, fingerprint);
                        Ok(Some(String::from_str(candidate)))
                    },
                    Err(_) => Err(VaultError::Authentication),
                },
            },
        }
    }
}

/// The text of an entered password, if one was entered.
pub open spec fn entered_view(entered: Option<&str>) -> Option<Seq<char>> {
    match entered {
        Some(text) => Some(text@),
        None => None,
    }
}

/// A password remembered for one fingerprint is never used for another:
/// the lookup forgets it and asks for a prompt, and what is then remembered
/// and returned depends on the candidate entered, not on the old password.
pub proof fn law_changed_fingerprint_forgets_password(
    password: Seq<char>,
    remembered_for: Seq<char>,
    fingerprint: Seq<char>,
    envelope: Envelope,
    entered: Option<Seq<char>>,
)
    requires
        remembered_for != fingerprint,
    ensures
        ({
            let cache = Some(Remembered { password, fingerprint: remembered_for });
            &&& recalled(cache, fingerprint) is None
            &&& kept(cache, fingerprint) is None
            &&& password_answer(cache, fingerprint, envelope, None) == Ok::<
                Option<Seq<char>>,
                VaultError,
            >(None)
            &&& cache_after(cache, fingerprint, envelope, None) is None
            &&& password_answer(cache, fingerprint, envelope, entered) == password_answer(
                None,
                fingerprint,
                envelope,
                entered,
            )
            &&& cache_after(cache, fingerprint, envelope, entered) == cache_after(
                None,
                fingerprint,
                envelope,
                entered,
            )
        }),
{
}

/// A password remembered for the fingerprint at hand is returned without
/// a prompt and stays remembered.
pub proof fn law_same_fingerprint_reuses_password(
    password: Seq<char>,
    fingerprint: Seq<char>,
    envelope: Envelope,
    entered: Option<Seq<char>>,
)
    ensures
        ({
            let cache = Some(Remembered { password, fingerprint });
            &&& password_answer(cache, fingerprint, envelope, entered) == Ok::<
                Option<Seq<char>>,
                VaultError,
            >(Some(password))
            &&& cache_after(cache, fingerprint, envelope, entered) == cache
        }),
{
}

} // verus!
