//! The network configuration: one descriptor for each interface, each
//! rendered into a unit file of its own under a name that the interface
//! alone decides.

use vstd::prelude::*;
use crate::errors::Error;
use crate::text::{
    chars_of, decimal, hex_digit_char, hex_pair, hexadecimal, holds, push_decimal,
    push_hex_pair, push_hexadecimal,
};

verus! {

/// The longest interface name.
pub const MAX_INTERFACE_NAME_LENGTH: usize = 15;

/// What every unit file name of this tool begins with.
pub const UNIT_PREFIX: &'static str = "10-metadata-";

/// What every unit file name of this tool ends with.
pub const UNIT_SUFFIX: &'static str = ".network";

/// The characters of an interface name: ASCII letters, digits, hyphen,
/// underscore and dot.
pub open spec fn is_name_char(c: char) -> bool {
    ('a' <= c && c <= 'z') || ('A' <= c && c <= 'Z') || ('0' <= c && c <= '9') || c == '-' || c
        == '_' || c == '.'
}

/// Whether `s` names an interface: 1 to 15 letters, digits, hyphens,
/// underscores and dots.
pub open spec fn is_interface_name(s: Seq<char>) -> bool {
    &&& 1 <= s.len() <= MAX_INTERFACE_NAME_LENGTH
    &&& forall|i: int| 0 <= i < s.len() ==> is_name_char(#[trigger] s[i])
}

/// The name of an interface.
#[derive(Debug, PartialEq, Eq)]
pub struct InterfaceName {
    name: String,
}

impl InterfaceName {
    /// The name.
    pub closed spec fn view(&self) -> Seq<char> {
        self.name@
    }

    #[verifier::type_invariant]
    spec fn valid(&self) -> bool {
        is_interface_name(self.name@)
    }

    /// The interface name that `text` holds. It is accepted exactly if it
    /// is 1 to 15 letters, digits, hyphens, underscores and dots; the error
    /// carries `text` as it was given.
    pub fn parse(text: &str) -> (r: Result<InterfaceName, Error>)
        ensures
            match r {
                Ok(name) => is_interface_name(text@) && name@ == text@,
                Err(Error::InvalidInterfaceName(given)) => !is_interface_name(text@) && given@
                    == text@,
                Err(_) => false,
            },
    {
        let cs = chars_of(text);
        if cs.len() < 1 || cs.len() > MAX_INTERFACE_NAME_LENGTH {
            return Err(Error::InvalidInterfaceName(String::from_str(text)));
        }
        let mut i: usize = 0;
        while i < cs.len()
            invariant
                i <= cs.len(),
                cs@ == text@,
                forall|j: int| 0 <= j < i ==> is_name_char(#[trigger] cs@[j]),
            decreases cs.len() - i,
        {
            let c = cs[i];
            let fits = ('a' <= c && c <= 'z') || ('A' <= c && c <= 'Z') || ('0' <= c && c <= '9')
                || c == '-' || c == '_' || c == '.';
            if !fits {
                return Err(Error::InvalidInterfaceName(String::from_str(text)));
            }
            i += 1;
        }
        Ok(InterfaceName { name: String::from_str(text) })
    }

    /// The name.
    pub fn as_str(&self) -> (r: &str)
        ensures
            r@ == self@,
            is_interface_name(self@),
    {
        proof {
            use_type_invariant(self);
        }
        self.name.as_str()
    }
}

/// How a descriptor picks its interface.
#[derive(Debug, PartialEq, Eq)]
pub enum Selector {
    /// By hardware address.
    Mac([u8; 6]),
    /// By name.
    Name(InterfaceName),
}

/// An IP address.
#[derive(Clone, Copy, Debug, PartialEq, Eq)]
pub enum IpAddress {
    V4([u8; 4]),
    V6([u16; 8]),
}

/// A fixed address.
#[derive(Debug, PartialEq, Eq)]
pub struct StaticAddress {
    pub address: IpAddress,
    /// The length of the network prefix, in bits.
    pub prefix: u8,
    pub gateway: Option<IpAddress>,
    pub nameservers: Vec<IpAddress>,
}

/// How an interface gets its address.
#[derive(Debug, PartialEq, Eq)]
pub enum Addressing {
    Dhcp,
    Static(StaticAddress),
}

/// The configuration of one interface.
#[derive(Debug, PartialEq, Eq)]
pub struct Interface {
    pub selector: Selector,
    pub addressing: Addressing,
}

/// A hardware address as text: six pairs of hexadecimal digits with colons
/// between them.
pub open spec fn mac_text(m: [u8; 6]) -> Seq<char> {
    hex_pair(m@[0]) + seq![':'] + hex_pair(m@[1]) + seq![':'] + hex_pair(m@[2]) + seq![':']
        + hex_pair(m@[3]) + seq![':'] + hex_pair(m@[4]) + seq![':'] + hex_pair(m@[5])
}

/// A hardware address as part of a file name: six pairs of hexadecimal
/// digits.
pub open spec fn mac_slug(m: [u8; 6]) -> Seq<char> {
    hex_pair(m@[0]) + hex_pair(m@[1]) + hex_pair(m@[2]) + hex_pair(m@[3]) + hex_pair(m@[4])
        + hex_pair(m@[5])
}

/// An IP address as text: four decimal numbers with dots between them, or
/// eight hexadecimal numbers with colons between them, none of them
/// shortened away.
pub open spec fn ip_text(a: IpAddress) -> Seq<char> {
    match a {
        IpAddress::V4(b) => decimal(b@[0] as nat) + seq!['.'] + decimal(b@[1] as nat) + seq!['.']
            + decimal(b@[2] as nat) + seq!['.'] + decimal(b@[3] as nat),
        IpAddress::V6(g) => hexadecimal(g@[0] as nat) + seq![':'] + hexadecimal(g@[1] as nat)
            + seq![':'] + hexadecimal(g@[2] as nat) + seq![':'] + hexadecimal(g@[3] as nat)
            + seq![':'] + hexadecimal(g@[4] as nat) + seq![':'] + hexadecimal(g@[5] as nat)
            + seq![':'] + hexadecimal(g@[6] as nat) + seq![':'] + hexadecimal(g@[7] as nat),
    }
}

/// What stands for the selector in the name of the unit file.
pub open spec fn selector_slug(s: Selector) -> Seq<char> {
    match s {
        Selector::Mac(m) => "mac-"@ + mac_slug(m),
        Selector::Name(n) => "name-"@ + n@,
    }
}

/// The name of the unit file of an interface. The selector alone decides
/// it.
pub open spec fn unit_name_text(i: Interface) -> Seq<char> {
    UNIT_PREFIX@ + selector_slug(i.selector) + UNIT_SUFFIX@
}

/// The line of the unit file that picks the interface.
pub open spec fn match_line(s: Selector) -> Seq<char> {
    match s {
        Selector::Mac(m) => "MACAddress="@ + mac_text(m) + seq!['\n'],
        Selector::Name(n) => "Name="@ + n@ + seq!['\n'],
    }
}

/// One line `DNS=` for each name server, in their order.
pub open spec fn dns_lines(servers: Seq<IpAddress>) -> Seq<char>
    decreases servers.len(),
{
    if servers.len() == 0 {
        Seq::empty()
    } else {
        dns_lines(servers.drop_last()) + "DNS="@ + ip_text(servers.last()) + seq!['\n']
    }
}

/// The lines of the unit file that say how the interface gets its address.
pub open spec fn network_lines(a: Addressing) -> Seq<char> {
    match a {
        Addressing::Dhcp => "DHCP=yes\n"@,
        Addressing::Static(s) => "Address="@ + ip_text(s.address) + seq!['/'] + decimal(
            s.prefix as nat,
        ) + seq!['\n'] + (match s.gateway {
            Some(g) => "Gateway="@ + ip_text(g) + seq!['\n'],
            None => Seq::empty(),
        }) + dns_lines(s.nameservers@),
    }
}

/// The contents of the unit file of an interface.
pub open spec fn unit_text(i: Interface) -> Seq<char> {
    "[Match]\n"@ + match_line(i.selector) + "\n[Network]\n"@ + network_lines(i.addressing)
}

/// Appends `a` as text to `out`.
pub fn push_ip(out: &mut String, a: &IpAddress)
    ensures
        final(out)@ == old(out)@ + ip_text(*a),
{
    proof {
        reveal_strlit(".");
        reveal_strlit(":");
        assert("."@ =~= seq!['.']);
        assert(":"@ =~= seq![':']);
    }
    match a {
        IpAddress::V4(b) => {
            push_decimal(out, b[0] as u32);
            out.append(".");
            push_decimal(out, b[1] as u32);
            out.append(".");
            push_decimal(out, b[2] as u32);
            out.append(".");
            push_decimal(out, b[3] as u32);
            assert(final(out)@ =~= old(out)@ + ip_text(*a));
        },
        IpAddress::V6(g) => {
            push_hexadecimal(out, g[0] as u32);
            out.append(":");
            push_hexadecimal(out, g[1] as u32);
            out.append(":");
            push_hexadecimal(out, g[2] as u32);
            out.append(":");
            push_hexadecimal(out, g[3] as u32);
            out.append(":");
            push_hexadecimal(out, g[4] as u32);
            out.append(":");
            push_hexadecimal(out, g[5] as u32);
            out.append(":");
            push_hexadecimal(out, g[6] as u32);
            out.append(":");
            push_hexadecimal(out, g[7] as u32);
            assert(final(out)@ =~= old(out)@ + ip_text(*a));
        },
    }
}

/// The name of the unit file of `interface`.
pub fn unit_name(interface: &Interface) -> (r: String)
    ensures
        r@ == unit_name_text(*interface),
{
    let mut r = String::from_str(UNIT_PREFIX);
    match &interface.selector {
        Selector::Mac(m) => {
            r.append("mac-");
            push_hex_pair(&mut r, m[0]);
            push_hex_pair(&mut r, m[1]);
            push_hex_pair(&mut r, m[2]);
            push_hex_pair(&mut r, m[3]);
            push_hex_pair(&mut r, m[4]);
            push_hex_pair(&mut r, m[5]);
            assert(r@ =~= UNIT_PREFIX@ + selector_slug(interface.selector));
        },
        Selector::Name(n) => {
            r.append("name-");
            r.append(n.as_str());
            assert(r@ =~= UNIT_PREFIX@ + selector_slug(interface.selector));
        },
    }
    r.append(UNIT_SUFFIX);
    r
}

/// Appends the hardware address `m` as text to `out`.
fn push_mac(out: &mut String, m: &[u8; 6])
    ensures
        final(out)@ == old(out)@ + mac_text(*m),
{
    proof {
        reveal_strlit(":");
        assert(":"@ =~= seq![':']);
    }
    push_hex_pair(out, m[0]);
    out.append(":");
    push_hex_pair(out, m[1]);
    out.append(":");
    push_hex_pair(out, m[2]);
    out.append(":");
    push_hex_pair(out, m[3]);
    out.append(":");
    push_hex_pair(out, m[4]);
    out.append(":");
    push_hex_pair(out, m[5]);
    assert(final(out)@ =~= old(out)@ + mac_text(*m));
}

/// Appends the line that picks the interface to `out`.
fn push_match_line(out: &mut String, selector: &Selector)
    ensures
        final(out)@ == old(out)@ + match_line(*selector),
{
    proof {
        reveal_strlit("\n");
        assert("\n"@ =~= seq!['\n']);
    }
    match selector {
        Selector::Mac(m) => {
            out.append("MACAddress=");
            push_mac(out, m);
            out.append("\n");
            assert(final(out)@ =~= old(out)@ + match_line(*selector));
        },
        Selector::Name(n) => {
            out.append("Name=");
            out.append(n.as_str());
            out.append("\n");
            assert(final(out)@ =~= old(out)@ + match_line(*selector));
        },
    }
}

/// Appends one line `DNS=` for each of `servers` to `out`.
fn push_dns_lines(out: &mut String, servers: &Vec<IpAddress>)
    ensures
        final(out)@ == old(out)@ + dns_lines(servers@),
{
    proof {
        reveal_strlit("\n");
        assert("\n"@ =~= seq!['\n']);
        assert(out@ =~= old(out)@ + dns_lines(servers@.take(0)));
    }
    let mut k: usize = 0;
    while k < servers.len()
        invariant
            k <= servers.len(),
            "\n"@ == seq!['\n'],
            out@ == old(out)@ + dns_lines(servers@.take(k as int)),
        decreases servers.len() - k,
    {
        out.append("DNS=");
        push_ip(out, &servers[k]);
        out.append("\n");
        proof {
            let next = servers@.take(k + 1);
            assert(next.drop_last() =~= servers@.take(k as int));
            assert(next.last() == servers@[k as int]);
            assert(out@ =~= old(out)@ + dns_lines(next));
        }
        k += 1;
    }
    proof {
        assert(servers@.take(k as int) =~= servers@);
    }
}

/// Appends the lines that say how the interface gets its address to `out`.
fn push_network_lines(out: &mut String, addressing: &Addressing)
    ensures
        final(out)@ == old(out)@ + network_lines(*addressing),
{
    proof {
        reveal_strlit("\n");
        reveal_strlit("/");
        assert("\n"@ =~= seq!['\n']);
        assert("/"@ =~= seq!['/']);
    }
    match addressing {
        Addressing::Dhcp => {
            out.append("DHCP=yes\n");
        },
        Addressing::Static(s) => {
            out.append("Address=");
            push_ip(out, &s.address);
            out.append("/");
            push_decimal(out, s.prefix as u32);
            out.append("\n");
            let ghost first = "Address="@ + ip_text(s.address) + seq!['/'] + decimal(
                s.prefix as nat,
            ) + seq!['\n'];
            assert(out@ =~= old(out)@ + first);
            let ghost second = match s.gateway {
                Some(g) => "Gateway="@ + ip_text(g) + seq!['\n'],
                None => Seq::empty(),
            };
            match &s.gateway {
                Some(g) => {
                    out.append("Gateway=");
                    push_ip(out, g);
                    out.append("\n");
                },
                None => {},
            }
            assert(out@ =~= old(out)@ + first + second);
            push_dns_lines(out, &s.nameservers);
            assert(final(out)@ =~= old(out)@ + (first + second + dns_lines(s.nameservers@)));
        },
    }
}

/// The contents of the unit file of `interface`.
pub fn unit_contents(interface: &Interface) -> (r: String)
    ensures
        r@ == unit_text(*interface),
{
    let mut r = String::from_str("[Match]\n");
    push_match_line(&mut r, &interface.selector);
    r.append("\n[Network]\n");
    push_network_lines(&mut r, &interface.addressing);
    r
}

/// Whether `name` is a unit file name of this tool: it begins with
/// `10-metadata-` and ends with `.network`, the two not overlapping.
pub open spec fn is_owned(name: Seq<char>) -> bool {
    &&& name.len() >= UNIT_PREFIX@.len() + UNIT_SUFFIX@.len()
    &&& name.subrange(0, UNIT_PREFIX@.len() as int) == UNIT_PREFIX@
    &&& name.subrange(name.len() - UNIT_SUFFIX@.len(), name.len() as int) == UNIT_SUFFIX@
}

/// Whether `name` is a unit file name of this tool.
pub fn owned(name: &str) -> (r: bool)
    ensures
        r == is_owned(name@),
{
    let cs = chars_of(name);
    let prefix = chars_of(UNIT_PREFIX);
    let suffix = chars_of(UNIT_SUFFIX);
    if prefix.len() > cs.len() || suffix.len() > cs.len() - prefix.len() {
        return false;
    }
    holds(&cs, 0, &prefix) && holds(&cs, cs.len() - suffix.len(), &suffix)
}

/// The name of every unit file is a unit file name of this tool.
pub proof fn lemma_unit_name_owned(i: Interface)
    ensures
        is_owned(unit_name_text(i)),
{
    let name = unit_name_text(i);
    let slug = selector_slug(i.selector);
    assert(name.subrange(0, UNIT_PREFIX@.len() as int) =~= UNIT_PREFIX@);
    assert(name.subrange(name.len() - UNIT_SUFFIX@.len(), name.len() as int) =~= UNIT_SUFFIX@);
}

/// A unit file: its name within the directory of units, and its contents.
#[derive(Clone, Debug, PartialEq, Eq)]
pub struct UnitFile {
    pub name: String,
    pub contents: String,
}

impl UnitFile {
    /// The name and the contents.
    pub open spec fn view(&self) -> (Seq<char>, Seq<char>) {
        (self.name@, self.contents@)
    }
}

/// What is to be done to the directory of units: first the files named in
/// `remove` are removed, then the files of `write` are written, each in full
/// and in the order given.
#[derive(Debug, PartialEq, Eq)]
pub struct UnitPlan {
    pub remove: Vec<String>,
    pub write: Vec<UnitFile>,
}

impl UnitPlan {
    /// The names to remove.
    pub open spec fn removals(&self) -> Seq<Seq<char>> {
        self.remove@.map_values(|n: String| n@)
    }

    /// The files to write.
    pub open spec fn files(&self) -> Seq<(Seq<char>, Seq<char>)> {
        self.write@.map_values(|f: UnitFile| f@)
    }
}

/// The names among `names` that are unit file names of this tool, in their
/// order.
pub open spec fn owned_names(names: Seq<Seq<char>>) -> Seq<Seq<char>>
    decreases names.len(),
{
    if names.len() == 0 {
        Seq::empty()
    } else if is_owned(names.last()) {
        owned_names(names.drop_last()).push(names.last())
    } else {
        owned_names(names.drop_last())
    }
}

/// The unit files of the interfaces of `config`, in their order.
pub open spec fn unit_files(config: Seq<Interface>) -> Seq<(Seq<char>, Seq<char>)> {
    Seq::new(config.len(), |i: int| (unit_name_text(config[i]), unit_text(config[i])))
}

/// The plan that brings a directory of units in line with `config`.
/// `existing` holds the names of the files that the directory holds now:
/// those among them that this tool owns are removed, whatever `config` says,
/// and one unit file is written for each interface of `config`.
pub fn write_network_units(existing: &Vec<String>, config: &Vec<Interface>) -> (plan: UnitPlan)
    ensures
        plan.removals() == owned_names(existing@.map_values(|n: String| n@)),
        plan.files() == unit_files(config@),
{
    let ghost names = existing@.map_values(|n: String| n@);
    let mut remove: Vec<String> = Vec::new();
    let mut i: usize = 0;
    while i < existing.len()
        invariant
            i <= existing.len(),
            names == existing@.map_values(|n: String| n@),
            remove@.map_values(|n: String| n@) == owned_names(names.take(i as int)),
        decreases existing.len() - i,
    {
        proof {
            assert(names.take(i + 1).drop_last() =~= names.take(i as int));
            assert(names.take(i + 1).last() == existing@[i as int]@);
        }
        if owned(existing[i].as_str()) {
            let ghost before = remove@;
            remove.push(existing[i].clone());
            proof {
                assert(remove@.map_values(|n: String| n@) =~= before.map_values(|n: String| n@).push(
                    existing@[i as int]@,
                ));
            }
        }
        i += 1;
    }
    proof {
        assert(names.take(i as int) =~= names);
    }
    let mut write: Vec<UnitFile> = Vec::new();
    let mut j: usize = 0;
    while j < config.len()
        invariant
            j <= config.len(),
            write@.map_values(|f: UnitFile| f@) == unit_files(config@).take(j as int),
        decreases config.len() - j,
    {
        let file = UnitFile { name: unit_name(&config[j]), contents: unit_contents(&config[j]) };
        let ghost before = write@;
        let ghost added = file@;
        write.push(file);
        proof {
            assert(write@.map_values(|f: UnitFile| f@) =~= before.map_values(|f: UnitFile| f@).push(
                added,
            ));
            assert(unit_files(config@).take(j + 1) =~= unit_files(config@).take(j as int).push(
                added,
            ));
        }
        j += 1;
    }
    proof {
        assert(unit_files(config@).take(j as int) =~= unit_files(config@));
    }
    UnitPlan { remove, write }
}

/// A directory: the names of its files, each with the contents of the file.
pub type Directory = Map<Seq<char>, Seq<char>>;

/// The directory after the files named in `names` were removed from it.
pub open spec fn removed(dir: Directory, names: Seq<Seq<char>>) -> Directory
    decreases names.len(),
{
    if names.len() == 0 {
        dir
    } else {
        removed(dir, names.drop_last()).remove(names.last())
    }
}

/// The directory after `files` were written into it, one after the other.
pub open spec fn written(dir: Directory, files: Seq<(Seq<char>, Seq<char>)>) -> Directory
    decreases files.len(),
{
    if files.len() == 0 {
        dir
    } else {
        written(dir, files.drop_last()).insert(files.last().0, files.last().1)
    }
}

/// The directory without the unit files of this tool.
pub open spec fn pruned(dir: Directory) -> Directory {
    dir.restrict(Set::new(|n: Seq<char>| !is_owned(n)))
}

/// The directory that a run with `config` leaves: what this tool does not
/// own stays, and of what it owns there are the unit files of `config`, and
/// no others.
pub open spec fn applied(dir: Directory, config: Seq<Interface>) -> Directory {
    written(pruned(dir), unit_files(config))
}

/// Whether one of `files` has the name `n`.
pub open spec fn names(files: Seq<(Seq<char>, Seq<char>)>, n: Seq<char>) -> bool {
    exists|i: int| 0 <= i < files.len() && (#[trigger] files[i]).0 == n
}

/// What writing files does to a directory: the names written are there, and
/// every other name is there, with its contents, exactly if it was before.
proof fn lemma_written(dir: Directory, files: Seq<(Seq<char>, Seq<char>)>, n: Seq<char>)
    ensures
        written(dir, files).dom().contains(n) <==> dir.dom().contains(n) || names(files, n),
        !names(files, n) ==> written(dir, files)[n] == dir[n],
    decreases files.len(),
{
    if files.len() > 0 {
        let front = files.drop_last();
        lemma_written(dir, front, n);
        if names(front, n) {
            let i = choose|i: int| 0 <= i < front.len() && (#[trigger] front[i]).0 == n;
            assert(files[i].0 == n);
        }
        if names(files, n) {
            let i = choose|i: int| 0 <= i < files.len() && (#[trigger] files[i]).0 == n;
            if i < front.len() {
                assert(front[i].0 == n);
            }
        }
        if files.last().0 == n {
            assert(files[files.len() - 1].0 == n);
        }
    }
}

/// What removing files does to a directory: the names removed are gone, and
/// every other name is there, with its contents, exactly if it was before.
proof fn lemma_removed(dir: Directory, gone: Seq<Seq<char>>, n: Seq<char>)
    ensures
        removed(dir, gone).dom().contains(n) <==> dir.dom().contains(n) && !gone.contains(n),
        removed(dir, gone).dom().contains(n) ==> removed(dir, gone)[n] == dir[n],
    decreases gone.len(),
{
    if gone.len() > 0 {
        let front = gone.drop_last();
        lemma_removed(dir, front, n);
        if front.contains(n) {
            let i = choose|i: int| 0 <= i < front.len() && front[i] == n;
            assert(gone[i] == n);
        }
        if gone.contains(n) {
            let i = choose|i: int| 0 <= i < gone.len() && gone[i] == n;
            if i < front.len() {
                assert(front[i] == n);
            }
        }
        if gone.last() == n {
            assert(gone[gone.len() - 1] == n);
        }
    }
}

/// `owned_names` holds the names it was given that this tool owns.
proof fn lemma_owned_names(all: Seq<Seq<char>>, n: Seq<char>)
    ensures
        owned_names(all).contains(n) <==> all.contains(n) && is_owned(n),
    decreases all.len(),
{
    if all.len() > 0 {
        let front = all.drop_last();
        lemma_owned_names(front, n);
        if front.contains(n) {
            let i = choose|i: int| 0 <= i < front.len() && front[i] == n;
            assert(all[i] == n);
        }
        if all.contains(n) {
            let i = choose|i: int| 0 <= i < all.len() && all[i] == n;
            if i < front.len() {
                assert(front[i] == n);
            }
        }
        if all.last() == n {
            assert(all[all.len() - 1] == n);
        }
        if is_owned(all.last()) {
            let o = owned_names(front).push(all.last());
            assert(o[o.len() - 1] == all.last());
            if owned_names(front).contains(n) {
                let i = choose|i: int| 0 <= i < owned_names(front).len() && owned_names(front)[i]
                    == n;
                assert(o[i] == n);
            }
        }
    }
}

/// Carrying out the plan leaves the directory that `applied` describes,
/// provided that `existing` names every file of the directory that this
/// tool owns.
pub proof fn lemma_plan_gives_applied(
    dir: Directory,
    existing: Seq<Seq<char>>,
    config: Seq<Interface>,
)
    requires
        forall|n: Seq<char>| dir.dom().contains(n) && is_owned(n) ==> existing.contains(n),
    ensures
        written(removed(dir, owned_names(existing)), unit_files(config)) == applied(dir, config),
{
    let cleared = removed(dir, owned_names(existing));
    assert forall|n: Seq<char>| cleared.dom().contains(n) <==> pruned(dir).dom().contains(n) by {
        lemma_removed(dir, owned_names(existing), n);
        lemma_owned_names(existing, n);
    }
    assert forall|n: Seq<char>| cleared.dom().contains(n) implies #[trigger] cleared[n] == pruned(
        dir,
    )[n] by {
        lemma_removed(dir, owned_names(existing), n);
    }
    assert(cleared =~= pruned(dir));
}

/// The names of the files of a directory, each once, in some order.
pub open spec fn listing(dir: Directory) -> Seq<Seq<char>> {
    dir.dom().to_seq()
}

/// The directory that a run with `config` leaves behind: the names of the
/// directory are listed, the plan is made from the listing, and the plan is
/// carried out, removals first.
pub open spec fn run_on(dir: Directory, config: Seq<Interface>) -> Directory {
    written(removed(dir, owned_names(listing(dir))), unit_files(config))
}

/// Writing files into a directory leaves it a directory: the number of its
/// files stays finite.
proof fn lemma_written_finite(dir: Directory, files: Seq<(Seq<char>, Seq<char>)>)
    requires
        dir.dom().finite(),
    ensures
        written(dir, files).dom().finite(),
    decreases files.len(),
{
    if files.len() > 0 {
        lemma_written_finite(dir, files.drop_last());
    }
}

/// A run leaves what `applied` describes: what this tool does not own
/// stays, and of what it owns there are the unit files of the configuration
/// and no others. What a run leaves is a directory again.
pub proof fn lemma_run_gives_applied(dir: Directory, config: Seq<Interface>)
    requires
        dir.dom().finite(),
    ensures
        run_on(dir, config) == applied(dir, config),
        run_on(dir, config).dom().finite(),
{
    dir.dom().lemma_to_seq_to_set_id();
    assert forall|n: Seq<char>| dir.dom().contains(n) && is_owned(n) implies listing(
        dir,
    ).contains(n) by {
        assert(listing(dir).to_set().contains(n));
    }
    lemma_plan_gives_applied(dir, listing(dir), config);
    assert(pruned(dir).dom() =~= dir.dom().intersect(Set::new(|n: Seq<char>| !is_owned(n))));
    lemma_written_finite(pruned(dir), unit_files(config));
}

/// A second run with the same configuration leaves the directory as the
/// first run left it: the same files with the same contents, none twice and
/// none left over.
pub proof fn lemma_second_run_changes_nothing(dir: Directory, config: Seq<Interface>)
    requires
        dir.dom().finite(),
    ensures
        run_on(run_on(dir, config), config) == run_on(dir, config),
{
    lemma_run_gives_applied(dir, config);
    lemma_run_gives_applied(run_on(dir, config), config);
    lemma_later_run_replaces(dir, config, config);
}

/// The unit file that one run wrote for an interface is gone after a later
/// run whose configuration has no descriptor for that interface, and every
/// interface of the later configuration has its unit file.
pub proof fn lemma_second_run_removes_stale_unit(
    dir: Directory,
    first: Seq<Interface>,
    second: Seq<Interface>,
    i: int,
)
    requires
        dir.dom().finite(),
        0 <= i < first.len(),
        forall|j: int|
            0 <= j < second.len() ==> selector_key((#[trigger] second[j]).selector)
                != selector_key(first[i].selector),
    ensures
        run_on(dir, first).dom().contains(unit_name_text(first[i])),
        !run_on(run_on(dir, first), second).dom().contains(unit_name_text(first[i])),
        forall|j: int|
            0 <= j < second.len() ==> run_on(run_on(dir, first), second).dom().contains(
                unit_name_text(#[trigger] second[j]),
            ),
{
    lemma_run_gives_applied(dir, first);
    let between = run_on(dir, first);
    lemma_run_gives_applied(between, second);
    lemma_units_present(dir, first, i);
    lemma_unit_name_owned(first[i]);
    assert forall|j: int| 0 <= j < second.len() implies unit_name_text(#[trigger] second[j])
        != unit_name_text(first[i]) by {
        if unit_name_text(second[j]) == unit_name_text(first[i]) {
            lemma_unit_name_decides_interface(second[j], first[i]);
        }
    }
    lemma_stale_units_pruned(between, second, unit_name_text(first[i]));
    assert forall|j: int| 0 <= j < second.len() implies run_on(between, second).dom().contains(
        unit_name_text(#[trigger] second[j]),
    ) by {
        lemma_units_present(between, second, j);
    }
}

/// A unit file of an earlier run whose interface is no longer in the
/// configuration is gone after the run.
pub proof fn lemma_stale_units_pruned(dir: Directory, config: Seq<Interface>, n: Seq<char>)
    requires
        is_owned(n),
        forall|i: int| 0 <= i < config.len() ==> unit_name_text(#[trigger] config[i]) != n,
    ensures
        !applied(dir, config).dom().contains(n),
{
    lemma_written(pruned(dir), unit_files(config), n);
    if names(unit_files(config), n) {
        let i = choose|i: int|
            0 <= i < unit_files(config).len() && (#[trigger] unit_files(config)[i]).0 == n;
        assert(unit_name_text(config[i]) == n);
    }
}

/// Each interface of the configuration has its unit file after the run.
pub proof fn lemma_units_present(dir: Directory, config: Seq<Interface>, i: int)
    requires
        0 <= i < config.len(),
    ensures
        applied(dir, config).dom().contains(unit_name_text(config[i])),
{
    lemma_written(pruned(dir), unit_files(config), unit_name_text(config[i]));
    assert(unit_files(config)[i].0 == unit_name_text(config[i]));
}

/// What this tool does not own is after the run as it was before.
pub proof fn lemma_unowned_kept(dir: Directory, config: Seq<Interface>, n: Seq<char>)
    requires
        !is_owned(n),
    ensures
        applied(dir, config).dom().contains(n) <==> dir.dom().contains(n),
        dir.dom().contains(n) ==> applied(dir, config)[n] == dir[n],
{
    lemma_written(pruned(dir), unit_files(config), n);
    if names(unit_files(config), n) {
        let i = choose|i: int|
            0 <= i < unit_files(config).len() && (#[trigger] unit_files(config)[i]).0 == n;
        lemma_unit_name_owned(config[i]);
    }
}

/// Writing unit files changes nothing of what this tool does not own.
proof fn lemma_pruned_written(dir: Directory, config: Seq<Interface>, upto: int)
    requires
        0 <= upto <= config.len(),
    ensures
        pruned(written(dir, unit_files(config).take(upto))) == pruned(dir),
    decreases upto,
{
    let files = unit_files(config).take(upto);
    if upto > 0 {
        lemma_pruned_written(dir, config, upto - 1);
        assert(files.drop_last() =~= unit_files(config).take(upto - 1));
        assert(files.last().0 == unit_name_text(config[upto - 1]));
        lemma_unit_name_owned(config[upto - 1]);
        assert(pruned(written(dir, files)) =~= pruned(written(dir, files.drop_last())));
    }
}

/// A run leaves what its configuration says, whatever an earlier run left:
/// after a run with `first` and a run with `second` the directory is as
/// after a run with `second` alone. A second run with the same configuration
/// changes nothing.
pub proof fn lemma_later_run_replaces(
    dir: Directory,
    first: Seq<Interface>,
    second: Seq<Interface>,
)
    ensures
        applied(applied(dir, first), second) == applied(dir, second),
        applied(applied(dir, second), second) == applied(dir, second),
{
    lemma_pruned_written(pruned(dir), first, first.len() as int);
    assert(unit_files(first).take(first.len() as int) =~= unit_files(first));
    lemma_pruned_written(pruned(dir), second, second.len() as int);
    assert(unit_files(second).take(second.len() as int) =~= unit_files(second));
    assert(pruned(pruned(dir)) =~= pruned(dir));
}

/// What a selector picks its interface by, as plain values.
pub enum SelectorKey {
    Mac(Seq<u8>),
    Name(Seq<char>),
}

/// What `s` picks its interface by.
pub open spec fn selector_key(s: Selector) -> SelectorKey {
    match s {
        Selector::Mac(m) => SelectorKey::Mac(m@),
        Selector::Name(n) => SelectorKey::Name(n@),
    }
}

/// Two bytes that are written alike are the same byte.
proof fn lemma_hex_pair_injective(a: u8, b: u8)
    requires
        hex_pair(a) == hex_pair(b),
    ensures
        a == b,
{
    assert(hex_pair(a)[0] == hex_pair(b)[0]);
    assert(hex_pair(a)[1] == hex_pair(b)[1]);
    assert(hex_digit_char((a / 16) as nat) == hex_digit_char((b / 16) as nat));
    assert(hex_digit_char((a % 16) as nat) == hex_digit_char((b % 16) as nat));
    assert(a / 16 == b / 16);
    assert(a % 16 == b % 16);
}

/// Two hardware addresses that are written alike are the same address.
proof fn lemma_mac_slug_injective(a: [u8; 6], b: [u8; 6])
    requires
        mac_slug(a) == mac_slug(b),
    ensures
        a@ == b@,
{
    let x = mac_slug(a);
    let y = mac_slug(b);
    assert forall|i: int| 0 <= i < 6 implies a@[i] == b@[i] by {
        assert(x.subrange(2 * i, 2 * i + 2) =~= hex_pair(a@[i]));
        assert(y.subrange(2 * i, 2 * i + 2) =~= hex_pair(b@[i]));
        lemma_hex_pair_injective(a@[i], b@[i]);
    }
    assert(a@ =~= b@);
}

/// The name of a unit file tells which interface it is for: two
/// descriptors whose unit files have the same name pick the same interface,
/// and descriptors that pick different interfaces get different files.
pub proof fn lemma_unit_name_decides_interface(a: Interface, b: Interface)
    requires
        unit_name_text(a) == unit_name_text(b),
    ensures
        selector_key(a.selector) == selector_key(b.selector),
{
    let p = UNIT_PREFIX@.len() as int;
    let x = selector_slug(a.selector);
    let y = selector_slug(b.selector);
    let n = unit_name_text(a);
    assert(x =~= n.subrange(p, p + x.len()));
    assert(y =~= unit_name_text(b).subrange(p, p + y.len()));
    assert(n.len() == p + x.len() + UNIT_SUFFIX@.len());
    assert(unit_name_text(b).len() == p + y.len() + UNIT_SUFFIX@.len());
    assert(x.len() == y.len());
    assert(x == y);
    reveal_strlit("mac-");
    reveal_strlit("name-");
    match (a.selector, b.selector) {
        (Selector::Mac(m1), Selector::Mac(m2)) => {
            assert(mac_slug(m1) =~= x.subrange(4, x.len() as int));
            assert(mac_slug(m2) =~= y.subrange(4, y.len() as int));
            lemma_mac_slug_injective(m1, m2);
        },
        (Selector::Name(n1), Selector::Name(n2)) => {
            assert(n1@ =~= x.subrange(5, x.len() as int));
            assert(n2@ =~= y.subrange(5, y.len() as int));
        },
        (Selector::Mac(_), Selector::Name(_)) => {
            assert(x[0] == 'm' && y[0] == 'n');
        },
        (Selector::Name(_), Selector::Mac(_)) => {
            assert(x[0] == 'n' && y[0] == 'm');
        },
    }
}

} // verus!
