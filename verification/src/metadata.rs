//! The metadata of one instance as its provider fetched it: four facets,
//! each fetched once and each with an outcome of its own.

use vstd::prelude::*;
use crate::attributes::{rendered_attributes, write_attributes, AttributeSet};
use crate::errors::Error;
use crate::hostname::{rendered_hostname, write_hostname, Hostname};
use crate::network::{owned_names, unit_files, write_network_units, Interface, UnitPlan};
use crate::output::FileWrite;
use crate::providers::ProviderKind;
use crate::ssh::{key_views, merged, write_ssh_keys, AuthorizedKeys};

verus! {

/// The metadata that a provider fetched. Each facet holds what the fetch
/// gave: the facet, or the error of the fetch. A platform that has no such
/// facet gives an empty one (no attributes, no keys, no hostname, no
/// interfaces), which is a success and no error. What was fetched stays as
/// it is: every reading of a facet gives the same.
#[derive(Debug, PartialEq, Eq)]
pub struct MetadataProvider {
    kind: ProviderKind,
    attributes: Result<AttributeSet, Error>,
    ssh_keys: Result<Vec<String>, Error>,
    hostname: Result<Option<Hostname>, Error>,
    network: Result<Vec<Interface>, Error>,
}

impl MetadataProvider {
    /// The platform.
    pub closed spec fn kind_of(&self) -> ProviderKind {
        self.kind
    }

    /// The attributes, or the error of their fetch.
    pub closed spec fn attributes_facet(&self) -> Result<AttributeSet, Error> {
        self.attributes
    }

    /// The SSH keys, or the error of their fetch.
    pub closed spec fn ssh_keys_facet(&self) -> Result<Vec<String>, Error> {
        self.ssh_keys
    }

    /// The hostname, if the platform reports one, or the error of its
    /// fetch.
    pub closed spec fn hostname_facet(&self) -> Result<Option<Hostname>, Error> {
        self.hostname
    }

    /// The network configuration, or the error of its fetch.
    pub closed spec fn network_facet(&self) -> Result<Vec<Interface>, Error> {
        self.network
    }

    /// The attributes, if there are any, are a well-formed set.
    pub open spec fn wf(&self) -> bool {
        self.attributes_facet() matches Ok(a) ==> a.wf()
    }

    /// The metadata of the platform `kind`, made of what was fetched.
    pub fn new(
        kind: ProviderKind,
        attributes: Result<AttributeSet, Error>,
        ssh_keys: Result<Vec<String>, Error>,
        hostname: Result<Option<Hostname>, Error>,
        network: Result<Vec<Interface>, Error>,
    ) -> (r: MetadataProvider)
        requires
            attributes matches Ok(a) ==> a.wf(),
        ensures
            r.wf(),
            r.kind_of() == kind,
            r.attributes_facet() == attributes,
            r.ssh_keys_facet() == ssh_keys,
            r.hostname_facet() == hostname,
            r.network_facet() == network,
    {
        MetadataProvider { kind, attributes, ssh_keys, hostname, network }
    }

    /// The platform.
    pub fn kind(&self) -> (r: ProviderKind)
        ensures
            r == self.kind_of(),
    {
        self.kind
    }

    /// The attributes, or the error of their fetch.
    pub fn attributes(&self) -> (r: &Result<AttributeSet, Error>)
        ensures
            *r == self.attributes_facet(),
    {
        &self.attributes
    }

    /// The SSH keys, or the error of their fetch.
    pub fn ssh_keys(&self) -> (r: &Result<Vec<String>, Error>)
        ensures
            *r == self.ssh_keys_facet(),
    {
        &self.ssh_keys
    }

    /// The hostname, if the platform reports one, or the error of its
    /// fetch.
    pub fn hostname(&self) -> (r: &Result<Option<Hostname>, Error>)
        ensures
            *r == self.hostname_facet(),
    {
        &self.hostname
    }

    /// The network configuration, or the error of its fetch.
    pub fn network_units(&self) -> (r: &Result<Vec<Interface>, Error>)
        ensures
            *r == self.network_facet(),
    {
        &self.network
    }

    /// The attributes file for `path`. The error of the fetch, if there was
    /// one, is handed on as it is.
    pub fn write_attributes(&self, path: &str) -> (r: Result<FileWrite, Error>)
        requires
            self.wf(),
        ensures
            match self.attributes_facet() {
                Ok(attrs) => r matches Ok(file) && file.path@ == path@ && file.contents@
                    == rendered_attributes(attrs@),
                Err(e) => r == Err::<FileWrite, Error>(e),
            },
    {
        match &self.attributes {
            Ok(attrs) => Ok(write_attributes(path, attrs)),
            Err(e) => Err(e.duplicate()),
        }
    }

    /// The authorized keys after the keys of the provider were merged into
    /// `store`. The error of the fetch, if there was one, is handed on as it
    /// is.
    pub fn write_ssh_keys(&self, store: &AuthorizedKeys) -> (r: Result<AuthorizedKeys, Error>)
        ensures
            match self.ssh_keys_facet() {
                Ok(keys) => r matches Ok(after) && after@ == merged(store@, key_views(keys@)),
                Err(e) => r == Err::<AuthorizedKeys, Error>(e),
            },
    {
        match &self.ssh_keys {
            Ok(keys) => Ok(write_ssh_keys(store, keys)),
            Err(e) => Err(e.duplicate()),
        }
    }

    /// The hostname file for `path`, or nothing to write where the platform
    /// reports no hostname. The error of the fetch, if there was one, is
    /// handed on as it is.
    pub fn write_hostname(&self, path: &str) -> (r: Result<Option<FileWrite>, Error>)
        ensures
            match self.hostname_facet() {
                Ok(Some(h)) => r matches Ok(Some(file)) && file.path@ == path@ && file.contents@
                    == rendered_hostname(h@),
                Ok(None) => r matches Ok(None),
                Err(e) => r == Err::<Option<FileWrite>, Error>(e),
            },
    {
        match &self.hostname {
            Ok(hostname) => Ok(write_hostname(path, hostname)),
            Err(e) => Err(e.duplicate()),
        }
    }

    /// The plan for the directory of units that holds the files named in
    /// `existing`. The error of the fetch, if there was one, is handed on as
    /// it is.
    pub fn write_network_units(&self, existing: &Vec<String>) -> (r: Result<UnitPlan, Error>)
        ensures
            match self.network_facet() {
                Ok(config) => r matches Ok(plan) && plan.removals() == owned_names(
                    existing@.map_values(|n: String| n@),
                ) && plan.files() == unit_files(config@),
                Err(e) => r == Err::<UnitPlan, Error>(e),
            },
    {
        match &self.network {
            Ok(config) => Ok(write_network_units(existing, config)),
            Err(e) => Err(e.duplicate()),
        }
    }
}

} // verus!
