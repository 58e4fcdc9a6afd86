//! The closed set of platforms whose metadata can be fetched.

use vstd::prelude::*;
use crate::text::same_text;

verus! {

/// One variant for each supported platform.
#[derive(Clone, Copy, Debug, PartialEq, Eq, Structural)]
pub enum ProviderKind {
    Azure,
    CloudstackMetadata,
    CloudstackConfigdrive,
    Digitalocean,
    Ec2,
    Gce,
    OpenstackMetadata,
    Packet,
    VagrantVirtualbox,
}

impl ProviderKind {
    /// The name that selects this provider.
    pub open spec fn name_text(self) -> Seq<char> {
        match self {
            ProviderKind::Azure => "azure"@,
            ProviderKind::CloudstackMetadata => "cloudstack-metadata"@,
            ProviderKind::CloudstackConfigdrive => "cloudstack-configdrive"@,
            ProviderKind::Digitalocean => "digitalocean"@,
            ProviderKind::Ec2 => "ec2"@,
            ProviderKind::Gce => "gce"@,
            ProviderKind::OpenstackMetadata => "openstack-metadata"@,
            ProviderKind::Packet => "packet"@,
            ProviderKind::VagrantVirtualbox => "vagrant-virtualbox"@,
        }
    }

    /// The name that selects this provider.
    pub fn name(&self) -> (r: &'static str)
        ensures
            r@ == self.name_text(),
    {
        match self {
            ProviderKind::Azure => "azure",
            ProviderKind::CloudstackMetadata => "cloudstack-metadata",
            ProviderKind::CloudstackConfigdrive => "cloudstack-configdrive",
            ProviderKind::Digitalocean => "digitalocean",
            ProviderKind::Ec2 => "ec2",
            ProviderKind::Gce => "gce",
            ProviderKind::OpenstackMetadata => "openstack-metadata",
            ProviderKind::Packet => "packet",
            ProviderKind::VagrantVirtualbox => "vagrant-virtualbox",
        }
    }

    /// Every provider, in the order of the registry.
    pub fn all() -> (r: Vec<ProviderKind>)
        ensures
            r@ == seq![
                ProviderKind::Azure,
                ProviderKind::CloudstackMetadata,
                ProviderKind::CloudstackConfigdrive,
                ProviderKind::Digitalocean,
                ProviderKind::Ec2,
                ProviderKind::Gce,
                ProviderKind::OpenstackMetadata,
                ProviderKind::Packet,
                ProviderKind::VagrantVirtualbox,
            ],
    {
        let mut r: Vec<ProviderKind> = Vec::new();
        r.push(ProviderKind::Azure);
        r.push(ProviderKind::CloudstackMetadata);
        r.push(ProviderKind::CloudstackConfigdrive);
        r.push(ProviderKind::Digitalocean);
        r.push(ProviderKind::Ec2);
        r.push(ProviderKind::Gce);
        r.push(ProviderKind::OpenstackMetadata);
        r.push(ProviderKind::Packet);
        r.push(ProviderKind::VagrantVirtualbox);
        assert(r@ =~= seq![
            ProviderKind::Azure,
            ProviderKind::CloudstackMetadata,
            ProviderKind::CloudstackConfigdrive,
            ProviderKind::Digitalocean,
            ProviderKind::Ec2,
            ProviderKind::Gce,
            ProviderKind::OpenstackMetadata,
            ProviderKind::Packet,
            ProviderKind::VagrantVirtualbox,
        ]);
        r
    }
}

/// The provider that `name` selects, if any: the one whose name it is,
/// letter for letter.
pub open spec fn resolved(name: Seq<char>) -> Option<ProviderKind> {
    if name == ProviderKind::Azure.name_text() {
        Some(ProviderKind::Azure)
    } else if name == ProviderKind::CloudstackMetadata.name_text() {
        Some(ProviderKind::CloudstackMetadata)
    } else if name == ProviderKind::CloudstackConfigdrive.name_text() {
        Some(ProviderKind::CloudstackConfigdrive)
    } else if name == ProviderKind::Digitalocean.name_text() {
        Some(ProviderKind::Digitalocean)
    } else if name == ProviderKind::Ec2.name_text() {
        Some(ProviderKind::Ec2)
    } else if name == ProviderKind::Gce.name_text() {
        Some(ProviderKind::Gce)
    } else if name == ProviderKind::OpenstackMetadata.name_text() {
        Some(ProviderKind::OpenstackMetadata)
    } else if name == ProviderKind::Packet.name_text() {
        Some(ProviderKind::Packet)
    } else if name == ProviderKind::VagrantVirtualbox.name_text() {
        Some(ProviderKind::VagrantVirtualbox)
    } else {
        None
    }
}

/// Looks `name` up in the registry. There is no fallback: a name that is
/// not in the registry selects nothing.
pub fn resolve(name: &str) -> (r: Option<ProviderKind>)
    ensures
        r == resolved(name@),
{
    if same_text(name, "azure") {
        Some(ProviderKind::Azure)
    } else if same_text(name, "cloudstack-metadata") {
        Some(ProviderKind::CloudstackMetadata)
    } else if same_text(name, "cloudstack-configdrive") {
        Some(ProviderKind::CloudstackConfigdrive)
    } else if same_text(name, "digitalocean") {
        Some(ProviderKind::Digitalocean)
    } else if same_text(name, "ec2") {
        Some(ProviderKind::Ec2)
    } else if same_text(name, "gce") {
        Some(ProviderKind::Gce)
    } else if same_text(name, "openstack-metadata") {
        Some(ProviderKind::OpenstackMetadata)
    } else if same_text(name, "packet") {
        Some(ProviderKind::Packet)
    } else if same_text(name, "vagrant-virtualbox") {
        Some(ProviderKind::VagrantVirtualbox)
    } else {
        None
    }
}

/// The names of two different providers differ.
pub proof fn lemma_names_distinct(a: ProviderKind, b: ProviderKind)
    ensures
        a != b ==> a.name_text() != b.name_text(),
{
    reveal_strlit("azure");
    reveal_strlit("cloudstack-metadata");
    reveal_strlit("cloudstack-configdrive");
    reveal_strlit("digitalocean");
    reveal_strlit("ec2");
    reveal_strlit("gce");
    reveal_strlit("openstack-metadata");
    reveal_strlit("packet");
    reveal_strlit("vagrant-virtualbox");
    let x = a.name_text();
    let y = b.name_text();
    if a != b && x.len() == y.len() {
        // Among names of one length the character at position 11 or 0 tells
        // the two apart.
        if x.len() == 3 {
            assert(x[0] != y[0]);
        } else if x.len() == 6 {
        } else {
            assert(x[0] != y[0] || (x.len() > 11 && x[11] != y[11]));
        }
    }
}

/// Every provider is found under its own name, and under no other name:
/// looking a name up gives a provider exactly if it is that provider's name.
pub proof fn lemma_resolve_exhaustive(name: Seq<char>, kind: ProviderKind)
    ensures
        resolved(kind.name_text()) == Some(kind),
        resolved(name) == Some(kind) <==> name == kind.name_text(),
        resolved(name) is None <==> forall|k: ProviderKind| name != #[trigger] k.name_text(),
{
    lemma_names_distinct(kind, ProviderKind::Azure);
    lemma_names_distinct(kind, ProviderKind::CloudstackMetadata);
    lemma_names_distinct(kind, ProviderKind::CloudstackConfigdrive);
    lemma_names_distinct(kind, ProviderKind::Digitalocean);
    lemma_names_distinct(kind, ProviderKind::Ec2);
    lemma_names_distinct(kind, ProviderKind::Gce);
    lemma_names_distinct(kind, ProviderKind::OpenstackMetadata);
    lemma_names_distinct(kind, ProviderKind::Packet);
    lemma_names_distinct(kind, ProviderKind::VagrantVirtualbox);
    if resolved(name) is None {
        assert forall|k: ProviderKind| name != #[trigger] k.name_text() by {
            match k {
                ProviderKind::Azure => {},
                ProviderKind::CloudstackMetadata => {},
                ProviderKind::CloudstackConfigdrive => {},
                ProviderKind::Digitalocean => {},
                ProviderKind::Ec2 => {},
                ProviderKind::Gce => {},
                ProviderKind::OpenstackMetadata => {},
                ProviderKind::Packet => {},
                ProviderKind::VagrantVirtualbox => {},
            }
        }
    }
}

} // verus!
