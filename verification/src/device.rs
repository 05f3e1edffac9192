//! Device numbers and the media topology.

use std::collections::HashMap;

use vstd::prelude::*;
use vstd::utf8::{decode_utf8, valid_utf8};

use crate::text::to_chars;

verus! {

broadcast use vstd::std_specs::hash::group_hash_axioms;

/// The device major number of V4L2 char devices.
pub const V4L2_DEV_MAJOR_ID: u64 = 81;

/// The major number in a raw `dev_t`: the bits 8 to 19, and above them the bits 44 to 63.
pub open spec fn major_of(dev: u64) -> int {
    (dev as int / 0x100) % 0x1000 + 0x1000 * (dev as int / 0x1000_0000_0000)
}

/// The minor number in a raw `dev_t`: the bits 0 to 7, and above them the bits 20 to 43.
pub open spec fn minor_of(dev: u64) -> int {
    dev as int % 0x100 + 0x100 * ((dev as int / 0x10_0000) % 0x100_0000)
}

/// The raw `dev_t` of a (major, minor) pair.
pub open spec fn dev_of(major: u32, minor: u32) -> u64 {
    (minor % 0x100 + 0x100 * (major % 0x1000) + 0x10_0000 * (minor / 0x100) + 0x1000_0000_0000 * (
    major / 0x1000)) as u64
}

/// The device minor number from a raw `dev_t` value.
pub fn linux_minor(dev: u64) -> (r: u64)
    ensures
        r == minor_of(dev),
{
    proof {
        assert((dev & 0xff) | ((dev >> 12) & 0xffff_ff00) == dev % 0x100 + 0x100 * ((dev
            / 0x10_0000) % 0x100_0000)) by (bit_vector);
    }
    (dev & 0xff) | ((dev >> 12) & 0xffff_ff00)
}

/// The device major number from a raw `dev_t` value.
pub fn linux_major(dev: u64) -> (r: u64)
    ensures
        r == major_of(dev),
{
    proof {
        assert(((dev >> 8) & 0xfff) | ((dev >> 32) & !0xfff_u64) == (dev / 0x100) % 0x1000 + 0x1000
            * (dev / 0x1000_0000_0000)) by (bit_vector);
    }
    ((dev >> 8) & 0xfff) | ((dev >> 32) & !0xfff_u64)
}

/// The (major, minor) pair of a raw `dev_t`.
pub open spec fn dev_numbers_of(rdev: u64) -> (u32, u32) {
    (major_of(rdev) as u32, minor_of(rdev) as u32)
}

/// The (major, minor) pair of a device.
pub fn dev_numbers(rdev: u64) -> (r: (u32, u32))
    ensures
        r == dev_numbers_of(rdev),
{
    (linux_major(rdev) as u32, linux_minor(rdev) as u32)
}

/// The device numbers of a raw `dev_t` are those that it was made of.
pub proof fn dev_numbers_round_trip(major: u32, minor: u32)
    ensures
        major_of(dev_of(major, minor)) == major,
        minor_of(dev_of(major, minor)) == minor,
        dev_numbers_of(dev_of(major, minor)) == (major, minor),
{
    let dev = dev_of(major, minor) as int;
    let (a, b) = (minor as int % 0x100, major as int % 0x1000);
    let (c, d) = (minor as int / 0x100, major as int / 0x1000);
    assert(dev == a + 0x100 * b + 0x10_0000 * c + 0x1000_0000_0000 * d);
    assert(dev % 0x100 == a);
    assert(dev / 0x100 == b + 0x1000 * c + 0x10_0000_0000 * d);
    assert((dev / 0x100) % 0x1000 == b);
    assert(dev / 0x10_0000 == c + 0x100_0000 * d);
    assert((dev / 0x10_0000) % 0x100_0000 == c);
    assert(dev / 0x1000_0000_0000 == d);
}

/// A raw `dev_t` is made of its (major, minor) pair and of nothing else: no two devices share one.
pub proof fn dev_numbers_identify_the_device(dev: u64)
    ensures
        dev_of(dev_numbers_of(dev).0, dev_numbers_of(dev).1) == dev,
{
    let n = dev as int;
    let (a, b) = (n % 0x100, (n / 0x100) % 0x1000);
    let (c, d) = ((n / 0x10_0000) % 0x100_0000, n / 0x1000_0000_0000);
    let (major, minor) = dev_numbers_of(dev);
    assert(major == b + 0x1000 * d);
    assert(major as int % 0x1000 == b);
    assert(major as int / 0x1000 == d);
    assert(minor == a + 0x100 * c);
    assert(minor as int % 0x100 == a);
    assert(minor as int / 0x100 == c);
    assert(n == a + 0x100 * b + 0x10_0000 * c + 0x1000_0000_0000 * d);
}

/// What a file's metadata says of the device that it stands for.
#[derive(Clone, Copy, Debug)]
pub struct FileDevice {
    pub is_char_device: bool,
    pub rdev: u64,
}

/// Whether a file is a V4L2 char device.
pub open spec fn is_v4l2_device(device: Option<FileDevice>) -> bool {
    device matches Some(d) && d.is_char_device && major_of(d.rdev) == V4L2_DEV_MAJOR_ID
}

/// Whether a file, whose metadata may be out of reach, is a V4L2 char device.
pub fn is_v4l2_fd(device: Option<FileDevice>) -> (r: bool)
    ensures
        r == is_v4l2_device(device),
{
    match device {
        Some(d) => d.is_char_device && linux_major(d.rdev) == V4L2_DEV_MAJOR_ID,
        None => false,
    }
}

/// What `String::from_utf8_lossy` makes of bytes.
pub uninterp spec fn lossy_text(bytes: Seq<u8>) -> Seq<char>;

/// `String::from_utf8_lossy`: a function of the bytes, which it decodes if they are valid UTF-8.
/// Where they are not, it puts replacement characters, whose number and place are left unsaid here.
#[verifier::external_body]
fn decode_lossy(bytes: &Vec<u8>) -> (r: String)
    ensures
        r@ == lossy_text(bytes@),
        valid_utf8(bytes@) ==> r@ == decode_utf8(bytes@),
{
    String::from_utf8_lossy(bytes).into_owned()
}

/// The bytes before the first zero byte.
pub open spec fn before_nul(bytes: Seq<u8>) -> Seq<u8>
    decreases bytes.len(),
{
    if bytes.len() == 0 || bytes[0] == 0 {
        Seq::empty()
    } else {
        seq![bytes[0]] + before_nul(bytes.drop_first())
    }
}

proof fn lemma_before_nul(bytes: Seq<u8>, n: int)
    requires
        0 <= n <= bytes.len(),
        forall|i: int| 0 <= i < n ==> bytes[i] != 0,
        n < bytes.len() ==> bytes[n] == 0,
    ensures
        before_nul(bytes) == bytes.take(n),
    decreases bytes.len(),
{
    if n == 0 {
        assert(bytes.take(0) =~= Seq::empty());
    } else {
        lemma_before_nul(bytes.drop_first(), n - 1);
        assert(bytes.take(n) =~= seq![bytes[0]] + bytes.drop_first().take(n - 1));
    }
}

/// What a media device says of itself, as far as it is read here.
#[derive(Clone, Copy, Debug)]
pub struct MediaDeviceInfo {
    /// The driver's name, filled up with zero bytes.
    pub driver: [u8; 16],
}

impl MediaDeviceInfo {
    /// The bytes of the driver's name.
    pub open spec fn driver_bytes(self) -> Seq<u8> {
        before_nul(self.driver@)
    }

    /// The driver's name.
    pub fn driver_str(&self) -> (r: String)
        ensures
            r@ == lossy_text(self.driver_bytes()),
            valid_utf8(self.driver_bytes()) ==> r@ == decode_utf8(self.driver_bytes()),
    {
        let mut bytes: Vec<u8> = Vec::new();
        let mut i: usize = 0;
        while i < 16 && self.driver[i] != 0
            invariant
                i <= 16,
                bytes@ == self.driver@.take(i as int),
                forall|j: int| 0 <= j < i ==> self.driver@[j] != 0,
            decreases 16 - i,
        {
            bytes.push(self.driver[i]);
            assert(self.driver@.take(i + 1) =~= self.driver@.take(i as int).push(
                self.driver@[i as int],
            ));
            i += 1;
        }
        proof {
            lemma_before_nul(self.driver@, i as int);
        }
        decode_lossy(&bytes)
    }
}

/// The device node of a media interface; all zeros where it has none.
#[derive(Clone, Copy, Debug, PartialEq, Eq, Structural)]
pub struct MediaV2IntfDevnode {
    pub major: u32,
    pub minor: u32,
}

/// The replies of a media device: to the question what it is, and to that for its interfaces.
pub struct MediaReplies {
    pub info: MediaDeviceInfo,
    pub interfaces: Vec<MediaV2IntfDevnode>,
}

impl MediaReplies {
    /// Whether the interface at `i` has the given device node.
    pub open spec fn has_devnode(self, i: int, node: MediaV2IntfDevnode) -> bool {
        self.interfaces@[i] == node && (node.major != 0 || node.minor != 0)
    }

    /// The device is a stateless decoder: the interfaces that have a device node, of which there is
    /// at least one, all have the given one.
    pub open spec fn is_decoder_at(self, node: MediaV2IntfDevnode) -> bool {
        &&& exists|i: int| 0 <= i < self.interfaces.len() && self.has_devnode(i, node)
        &&& forall|i: int, other: MediaV2IntfDevnode|
            0 <= i < self.interfaces.len() && self.has_devnode(i, other) ==> other == node
    }
}

/// The device node and the driver of a media device that is a stateless decoder; nothing for any
/// other device.
pub fn query_media_device(replies: &MediaReplies) -> (r: Option<((u32, u32), String)>)
    ensures
        match r {
            Some((node, driver)) => {
                &&& replies.is_decoder_at(MediaV2IntfDevnode { major: node.0, minor: node.1 })
                &&& driver@ == lossy_text(replies.info.driver_bytes())
                &&& valid_utf8(replies.info.driver_bytes()) ==> driver@ == decode_utf8(
                    replies.info.driver_bytes(),
                )
            },
            None => forall|node: MediaV2IntfDevnode| !replies.is_decoder_at(node),
        },
{
    let mut found: Option<MediaV2IntfDevnode> = None;
    let ghost mut at: int = 0;
    let mut i: usize = 0;
    while i < replies.interfaces.len()
        invariant
            i <= replies.interfaces.len(),
            found is Some ==> 0 <= at < i && replies.has_devnode(at, found->0),
            forall|j: int, other: MediaV2IntfDevnode|
                0 <= j < i && #[trigger] replies.has_devnode(j, other) ==> found == Some(other),
        decreases replies.interfaces.len() - i,
    {
        let node: MediaV2IntfDevnode = replies.interfaces[i];
        if node.major != 0 || node.minor != 0 {
            assert(replies.has_devnode(i as int, node));
            match found {
                Some(first) => {
                    if first != node {
                        assert forall|other: MediaV2IntfDevnode| !replies.is_decoder_at(other) by {
                            assert(replies.has_devnode(at, first));
                        }
                        return None;
                    }
                },
                None => {
                    found = Some(node);
                    proof {
                        at = i as int;
                    }
                },
            }
        }
        i += 1;
    }
    match found {
        Some(node) => Some(((node.major, node.minor), replies.info.driver_str())),
        None => None,
    }
}

/// One number for a (major, minor) pair.
pub open spec fn node_key(node: (u32, u32)) -> u64 {
    (node.0 * 0x1_0000_0000 + node.1) as u64
}

/// The driver names of stateless decoders by the device numbers of their nodes.
pub struct MediaTopology {
    names: HashMap<u64, String>,
}

impl View for MediaTopology {
    type V = Map<(u32, u32), Seq<char>>;

    closed spec fn view(&self) -> Map<(u32, u32), Seq<char>> {
        Map::new(
            |node: (u32, u32)| self.names@.contains_key(node_key(node)),
            |node: (u32, u32)| self.names@[node_key(node)]@,
        )
    }
}

impl MediaTopology {
    fn key(node: (u32, u32)) -> (r: u64)
        ensures
            r == node_key(node),
    {
        node.0 as u64 * 0x1_0000_0000 + node.1 as u64
    }

    /// A topology without decoders.
    pub fn new() -> (r: Self)
        ensures
            r@ == Map::<(u32, u32), Seq<char>>::empty(),
    {
        let r = MediaTopology { names: HashMap::new() };
        assert(r@ =~= Map::<(u32, u32), Seq<char>>::empty());
        r
    }

    /// Names the decoder at a node.
    pub fn insert(&mut self, node: (u32, u32), driver: String)
        ensures
            final(self)@ == old(self)@.insert(node, driver@),
    {
        let key: u64 = Self::key(node);
        self.names.insert(key, driver);
        assert forall|other: (u32, u32)| node_key(other) == node_key(node) implies other == node by {
            assert(other.0 == (other.0 * 0x1_0000_0000 + other.1) / 0x1_0000_0000);
            assert(node.0 == (node.0 * 0x1_0000_0000 + node.1) / 0x1_0000_0000);
        }
        assert(self@ =~= old(self)@.insert(node, driver@));
    }

    /// The name of the decoder at a node.
    pub fn get(&self, node: (u32, u32)) -> (r: Option<&String>)
        ensures
            match r {
                Some(name) => self@.contains_key(node) && name@ == self@[node],
                None => !self@.contains_key(node),
            },
    {
        let key: u64 = Self::key(node);
        self.names.get(&key)
    }
}

/// Whether a file name is that of a media device.
pub open spec fn is_media(name: Seq<char>) -> bool {
    name.len() >= 5 && name.take(5) == "media"@
}

/// Whether a file name is that of a media device.
pub fn is_media_name(name: &str) -> (r: bool)
    ensures
        r == is_media(name@),
{
    proof {
        reveal_strlit("media");
    }
    let chars: Vec<char> = to_chars(name);
    if chars.len() < 5 {
        return false;
    }
    let r: bool = chars[0] == 'm' && chars[1] == 'e' && chars[2] == 'd' && chars[3] == 'i'
        && chars[4] == 'a';
    proof {
        let start = name@.take(5);
        assert(forall|i: int| 0 <= i < 5 ==> #[trigger] start[i] == name@[i]);
        if r {
            assert(start =~= "media"@);
        } else if start == "media"@ {
            assert(start[0] == 'm' && start[1] == 'e' && start[2] == 'd' && start[3] == 'i'
                && start[4] == 'a');
        }
    }
    r
}

/// A file of the device directory: its name, what its metadata says, and, where they could be had,
/// the replies of the media device.
pub struct DevEntry {
    pub name: String,
    pub device: Option<FileDevice>,
    pub replies: Option<MediaReplies>,
}

impl DevEntry {
    /// Whether the file is a media device that may be asked.
    pub open spec fn is_media_device(self) -> bool {
        &&& is_media(self.name@)
        &&& self.device matches Some(d)
        &&& d.is_char_device
    }

    /// The file is the media device of a stateless decoder whose node is the given one.
    pub open spec fn is_decoder_at(self, node: (u32, u32)) -> bool {
        &&& self.is_media_device()
        &&& self.replies matches Some(replies)
        &&& replies.is_decoder_at(MediaV2IntfDevnode { major: node.0, minor: node.1 })
    }
}

/// The topology that a walk through the device directory finds: each stateless decoder adds its
/// node, with the driver's name. Of two decoders at one node the later stands.
pub open spec fn topology_of(entries: Seq<DevEntry>) -> Map<(u32, u32), Seq<char>>
    decreases entries.len(),
{
    if entries.len() == 0 {
        Map::empty()
    } else {
        let m = topology_of(entries.drop_last());
        let e = entries.last();
        if exists|node: (u32, u32)| e.is_decoder_at(node) {
            m.insert(
                choose|node: (u32, u32)| e.is_decoder_at(node),
                lossy_text(e.replies->0.info.driver_bytes()),
            )
        } else {
            m
        }
    }
}

/// Builds the map from device nodes to driver names, of stateless decoder devices only.
pub fn build_media_topology(entries: &Vec<DevEntry>) -> (r: MediaTopology)
    ensures
        r@ == topology_of(entries@),
{
    let mut r = MediaTopology::new();
    let mut i: usize = 0;
    while i < entries.len()
        invariant
            i <= entries.len(),
            r@ == topology_of(entries@.take(i as int)),
        decreases entries.len() - i,
    {
        let e: &DevEntry = &entries[i];
        assert(entries@.take(i + 1).drop_last() =~= entries@.take(i as int));
        assert(entries@.take(i + 1).last() == *e);
        let is_char: bool = match e.device {
            Some(d) => d.is_char_device,
            None => false,
        };
        if is_media_name(e.name.as_str()) && is_char {
            if let Some(replies) = &e.replies {
                match query_media_device(replies) {
                    Some((node, driver)) => {
                        assert(e.is_decoder_at(node));
                        let ghost chosen = choose|n: (u32, u32)| e.is_decoder_at(n);
                        proof {
                            decoder_has_one_node(
                                *replies,
                                MediaV2IntfDevnode { major: node.0, minor: node.1 },
                                MediaV2IntfDevnode { major: chosen.0, minor: chosen.1 },
                            );
                        }
                        r.insert(node, driver);
                    },
                    None => {},
                }
            }
        }
        i += 1;
    }
    assert(entries@.take(entries.len() as int) =~= entries@);
    r
}

/// A media device is a decoder at one node at most.
pub proof fn decoder_has_one_node(
    replies: MediaReplies,
    a: MediaV2IntfDevnode,
    b: MediaV2IntfDevnode,
)
    requires
        replies.is_decoder_at(a),
        replies.is_decoder_at(b),
    ensures
        a == b,
{
    let i = choose|i: int| 0 <= i < replies.interfaces.len() && replies.has_devnode(i, a);
    assert(replies.has_devnode(i, a));
}

/// The topology has the nodes of the stateless decoders among the files, and no others.
pub proof fn topology_has_the_decoders(entries: Seq<DevEntry>, node: (u32, u32))
    ensures
        topology_of(entries).contains_key(node) <==> exists|i: int|
            0 <= i < entries.len() && (#[trigger] entries[i]).is_decoder_at(node),
    decreases entries.len(),
{
    if entries.len() > 0 {
        let rest = entries.drop_last();
        let e = entries.last();
        let n = entries.len() - 1;
        topology_has_the_decoders(rest, node);
        assert(entries[n] == e);
        if exists|other: (u32, u32)| e.is_decoder_at(other) {
            let chosen = choose|other: (u32, u32)| e.is_decoder_at(other);
            if e.is_decoder_at(node) {
                decoder_has_one_node(
                    e.replies->0,
                    MediaV2IntfDevnode { major: node.0, minor: node.1 },
                    MediaV2IntfDevnode { major: chosen.0, minor: chosen.1 },
                );
            }
        }
        if exists|i: int| 0 <= i < entries.len() && (#[trigger] entries[i]).is_decoder_at(node) {
            let i = choose|i: int|
                0 <= i < entries.len() && (#[trigger] entries[i]).is_decoder_at(node);
            if i < n {
                assert(rest[i].is_decoder_at(node));
            }
        }
        if exists|i: int| 0 <= i < rest.len() && (#[trigger] rest[i]).is_decoder_at(node) {
            let i = choose|i: int| 0 <= i < rest.len() && (#[trigger] rest[i]).is_decoder_at(node);
            assert(entries[i].is_decoder_at(node));
        }
    }
}

/// The decoder name that the topology has for a device.
pub open spec fn decoder_name_of(rdev: Option<u64>, topology: Map<(u32, u32), Seq<char>>) -> Option<
    Seq<char>,
> {
    match rdev {
        Some(d) => if topology.contains_key(dev_numbers_of(d)) {
            Some(topology[dev_numbers_of(d)])
        } else {
            None
        },
        None => None,
    }
}

/// Resolves the driver name for the device that a descriptor's link leads to; `rdev` is missing
/// where the link could not be followed.
pub fn resolve_decoder_name(rdev: Option<u64>, topology: &MediaTopology) -> (r: Option<String>)
    ensures
        match r {
            Some(name) => decoder_name_of(rdev, topology@) == Some(name@),
            None => decoder_name_of(rdev, topology@) is None,
        },
{
    match rdev {
        Some(d) => match topology.get(dev_numbers(d)) {
            Some(name) => Some(name.clone()),
            None => None,
        },
        None => None,
    }
}

/// The char devices with the major number 81 are the V4L2 devices, whatever their minor number.
pub proof fn v4l2_devices_have_major_81(is_char_device: bool, major: u32, minor: u32)
    ensures
        is_v4l2_device(Some(FileDevice { is_char_device, rdev: dev_of(major, minor) })) <==> (
        is_char_device && major == 81),
        !is_v4l2_device(None),
{
    dev_numbers_round_trip(major, minor);
}

/// A driver's name is all that stands before the first zero byte.
pub proof fn driver_names_stop_at_zero(info: MediaDeviceInfo, name: Seq<u8>, rest: Seq<u8>)
    requires
        !name.contains(0u8),
        info.driver@ == name || info.driver@ == name + seq![0u8] + rest,
    ensures
        info.driver_bytes() == name,
{
    let bytes = info.driver@;
    let n = name.len() as int;
    assert forall|i: int| 0 <= i < n implies bytes[i] != 0 by {
        assert(name.contains(name[i]));
        assert(bytes[i] == name[i]);
    }
    lemma_before_nul(bytes, n);
    assert(bytes.take(n) =~= name);
}

/// A media device is a decoder at a node if some interface has the node and every other interface
/// has it too, or none at all.
pub proof fn decoders_have_no_other_node(replies: MediaReplies, node: MediaV2IntfDevnode)
    ensures
        replies.is_decoder_at(node) <==> {
            &&& node.major != 0 || node.minor != 0
            &&& replies.interfaces@.contains(node)
            &&& forall|i: int|
                0 <= i < replies.interfaces.len() ==> (#[trigger] replies.interfaces@[i]) == node
                    || (replies.interfaces@[i].major == 0 && replies.interfaces@[i].minor == 0)
        },
{
    let nodes = replies.interfaces@;
    if replies.is_decoder_at(node) {
        let i = choose|i: int| 0 <= i < nodes.len() && replies.has_devnode(i, node);
        assert(nodes[i] == node);
        assert forall|j: int| 0 <= j < nodes.len() implies (#[trigger] nodes[j]) == node || (
        nodes[j].major == 0 && nodes[j].minor == 0) by {
            if nodes[j].major != 0 || nodes[j].minor != 0 {
                assert(replies.has_devnode(j, nodes[j]));
            }
        }
    }
    if (node.major != 0 || node.minor != 0) && nodes.contains(node) {
        let i = choose|i: int| 0 <= i < nodes.len() && nodes[i] == node;
        assert(replies.has_devnode(i, node));
    }
}

/// The files whose names start with `media`, and no others, are those of media devices.
pub proof fn media_files_start_with_media(name: Seq<char>, rest: Seq<char>)
    ensures
        is_media("media"@ + rest),
        is_media(name) ==> name == "media"@ + name.skip(5),
{
    reveal_strlit("media");
    assert(("media"@ + rest).take(5) =~= "media"@);
    if is_media(name) {
        assert(name =~= name.take(5) + name.skip(5));
    }
}

/// One more file in the device directory: the media device of a decoder adds the decoder's node
/// with the driver's name, in place of what the node may have had, and any other file adds nothing.
pub proof fn decoders_add_their_driver(entries: Seq<DevEntry>, e: DevEntry, node: (u32, u32))
    ensures
        ({
            let is_decoder = {
                &&& e.name@.len() >= 5 && e.name@.take(5) == "media"@
                &&& e.device is Some && e.device->0.is_char_device
                &&& e.replies is Some && e.replies->0.is_decoder_at(
                    MediaV2IntfDevnode { major: node.0, minor: node.1 },
                )
            };
            &&& is_decoder ==> topology_of(entries.push(e)) == topology_of(entries).insert(
                node,
                lossy_text(e.replies->0.info.driver_bytes()),
            )
            &&& (!is_decoder && topology_of(entries.push(e)).contains_key(node)) ==> topology_of(
                entries,
            ).contains_key(node) && topology_of(entries.push(e))[node] == topology_of(entries)[node]
            &&& topology_of(entries).contains_key(node) ==> topology_of(
                entries.push(e),
            ).contains_key(node)
        }),
        topology_of(Seq::empty()) == Map::<(u32, u32), Seq<char>>::empty(),
{
    assert(entries.push(e).drop_last() =~= entries);
    assert(entries.push(e).last() == e);
    assert(e.is_decoder_at(node) ==> exists|other: (u32, u32)| e.is_decoder_at(other));
    if exists|other: (u32, u32)| e.is_decoder_at(other) {
        let chosen = choose|other: (u32, u32)| e.is_decoder_at(other);
        if e.is_decoder_at(node) {
            decoder_has_one_node(
                e.replies->0,
                MediaV2IntfDevnode { major: node.0, minor: node.1 },
                MediaV2IntfDevnode { major: chosen.0, minor: chosen.1 },
            );
        }
    }
}

/// The decoder of a device is looked up by both of the device's numbers.
pub proof fn decoders_are_looked_up_by_both_numbers(
    major: u32,
    minor: u32,
    topology: Map<(u32, u32), Seq<char>>,
)
    ensures
        decoder_name_of(Some(dev_of(major, minor)), topology) == if topology.contains_key(
            (major, minor),
        ) {
            Some(topology[(major, minor)])
        } else {
            None
        },
        decoder_name_of(None, topology) is None,
{
    dev_numbers_round_trip(major, minor);
}

} // verus!
