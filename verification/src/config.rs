use vstd::prelude::*;

use crate::store::StoreError;

verus! {

/// The storage engine's deployment configuration: its own address, its
/// administrator, and the allow-list of trusted issuer addresses capability
/// tokens are resolved against. Persisting it is the host's business; this
/// core only reads it.
#[derive(Debug, PartialEq, Eq)]
pub struct ContractConfig {
    pub my_address: String,
    pub owner_address: String,
    pub applications_address: Vec<String>,
}

impl ContractConfig {
    /// Admit only the configured administrator.
    pub fn check_owner(&self, addr: &String) -> (r: Result<(), StoreError>)
        ensures
            r == if self.owner_address@ == addr@ {
                Ok::<(), StoreError>(())
            } else {
                Err::<(), StoreError>(StoreError::Forbidden)
            },
    {
        if self.owner_address != *addr {
            return Err(StoreError::Forbidden);
        }
        Ok(())
    }

    /// Admit only a configured trusted issuer address.
    pub fn check_application(&self, addr: &String) -> (r: Result<(), StoreError>)
        ensures
            r == if self.applications_address.deep_view().contains(addr@) {
                Ok::<(), StoreError>(())
            } else {
                Err::<(), StoreError>(StoreError::Forbidden)
            },
    {
        let n = self.applications_address.len();
        for i in 0..n
            invariant
                n == self.applications_address.len(),
                forall|j: int| 0 <= j < i ==> self.applications_address.deep_view()[j] != addr@,
        {
            if self.applications_address[i] == *addr {
                proof {
                    assert(self.applications_address.deep_view()[i as int] == addr@);
                }
                return Ok(());
            }
            proof {
                assert(self.applications_address.deep_view()[i as int]
                    == self.applications_address@[i as int]@);
            }
        }
        Err(StoreError::Forbidden)
    }
}

/// A request to replace the trusted issuer allow-list; only the configured
/// administrator may send it.
#[derive(Debug, PartialEq, Eq)]
pub struct ExecuteSetApplications {
    pub applications: Vec<String>,
}

} // verus!
