//! DIMSE command sets: command fields, status codes, and the builders and
//! readers of the group-0000 elements that the services use.
use crate::message::{element_bytes, elements_bytes, elements_fit, elements_view, Element};
use crate::wire::{le16, le16_of, le32};
use vstd::prelude::*;
use vstd::string::StringSliceAdditionalSpecFns;

verus! {

pub const C_STORE_RQ: u16 = 0x0001;
pub const C_STORE_RSP: u16 = 0x8001;
pub const C_GET_RQ: u16 = 0x0010;
pub const C_GET_RSP: u16 = 0x8010;
pub const C_FIND_RQ: u16 = 0x0020;
pub const C_FIND_RSP: u16 = 0x8020;
pub const C_MOVE_RQ: u16 = 0x0021;
pub const C_MOVE_RSP: u16 = 0x8021;
pub const C_ECHO_RQ: u16 = 0x0030;
pub const C_ECHO_RSP: u16 = 0x8030;

pub const TAG_GROUP_LENGTH: u16 = 0x0000;
pub const TAG_AFFECTED_SOP_CLASS_UID: u16 = 0x0002;
pub const TAG_COMMAND_FIELD: u16 = 0x0100;
pub const TAG_MESSAGE_ID: u16 = 0x0110;
pub const TAG_MESSAGE_ID_RESPONDED_TO: u16 = 0x0120;
pub const TAG_MOVE_DESTINATION: u16 = 0x0600;
pub const TAG_PRIORITY: u16 = 0x0700;
pub const TAG_DATA_SET_TYPE: u16 = 0x0800;
pub const TAG_STATUS: u16 = 0x0900;
pub const TAG_AFFECTED_SOP_INSTANCE_UID: u16 = 0x1000;
pub const TAG_REMAINING: u16 = 0x1020;
pub const TAG_COMPLETED: u16 = 0x1021;
pub const TAG_FAILED: u16 = 0x1022;
pub const TAG_WARNING: u16 = 0x1023;

pub const STATUS_SUCCESS: u16 = 0x0000;
pub const STATUS_PENDING: u16 = 0xFF00;
pub const STATUS_PENDING_WARNING: u16 = 0xFF01;
pub const STATUS_UNRECOGNIZED_OPERATION: u16 = 0x0211;
pub const STATUS_OUT_OF_RESOURCES: u16 = 0xA700;
pub const STATUS_CANNOT_UNDERSTAND: u16 = 0xC000;

pub const DATA_SET_ABSENT: u16 = 0x0101;
pub const DATA_SET_PRESENT: u16 = 0x0000;

/// The value of the first command element (group 0000) with number `el`,
/// read as an unsigned short; `None` when absent or not two bytes long.
pub open spec fn find_u16(s: Seq<(u16, u16, Seq<u8>)>, el: u16) -> Option<u16>
    decreases s.len(),
{
    if s.len() == 0 {
        None
    } else if s[0].0 == 0 && s[0].1 == el {
        if s[0].2.len() == 2 {
            Some(le16_of(s[0].2[0], s[0].2[1]))
        } else {
            None
        }
    } else {
        find_u16(s.drop_first(), el)
    }
}

/// The bytes of the first command element (group 0000) with number `el`.
pub open spec fn find_value(s: Seq<(u16, u16, Seq<u8>)>, el: u16) -> Option<Seq<u8>>
    decreases s.len(),
{
    if s.len() == 0 {
        None
    } else if s[0].0 == 0 && s[0].1 == el {
        Some(s[0].2)
    } else {
        find_value(s.drop_first(), el)
    }
}

/// Whether a dataset follows the command: the data set type is present and
/// is not the "no dataset" marker.
pub open spec fn expects_dataset(s: Seq<(u16, u16, Seq<u8>)>) -> bool {
    find_u16(s, TAG_DATA_SET_TYPE) matches Some(v) && v != DATA_SET_ABSENT
}

/// A UID value padded with one NUL byte to even length.
pub open spec fn uid_value(uid: Seq<u8>) -> Seq<u8> {
    if uid.len() % 2 == 1 {
        uid.push(0u8)
    } else {
        uid
    }
}

/// A text value padded with one space to even length.
pub open spec fn text_value(t: Seq<u8>) -> Seq<u8> {
    if t.len() % 2 == 1 {
        t.push(0x20u8)
    } else {
        t
    }
}

pub fn u16_element(element: u16, v: u16) -> (r: Element)
    ensures
        r@ == (0u16, element, le16(v)),
{
    let mut value: Vec<u8> = Vec::new();
    crate::wire::push_le16(&mut value, v);
    Element { group: 0, element, value }
}

pub fn uid_element(element: u16, uid: &[u8]) -> (r: Element)
    ensures
        r@ == (0u16, element, uid_value(uid@)),
{
    let mut value: Vec<u8> = Vec::new();
    crate::wire::push_all(&mut value, uid);
    if uid.len() % 2 == 1 {
        value.push(0u8);
    }
    Element { group: 0, element, value }
}

pub fn text_element(element: u16, t: &[u8]) -> (r: Element)
    ensures
        r@ == (0u16, element, text_value(t@)),
{
    let mut value: Vec<u8> = Vec::new();
    crate::wire::push_all(&mut value, t);
    if t.len() % 2 == 1 {
        value.push(0x20u8);
    }
    Element { group: 0, element, value }
}

/// Prefixes the command elements with the command group length, the number
/// of bytes that the elements take once encoded.
pub fn with_group_length(fields: Vec<Element>) -> (r: Vec<Element>)
    requires
        elements_fit(elements_view(fields@)),
        elements_bytes(elements_view(fields@)).len() <= u32::MAX,
    ensures
        elements_view(r@) == seq![
            (0u16, TAG_GROUP_LENGTH, le32(elements_bytes(elements_view(fields@)).len() as u32)),
        ] + elements_view(fields@),
        elements_fit(elements_view(r@)),
{
    let encoded = crate::message::encode_elements(&fields);
    let mut len_value: Vec<u8> = Vec::new();
    crate::wire::push_le32(&mut len_value, encoded.len() as u32);
    let mut r: Vec<Element> = Vec::new();
    r.push(Element { group: 0, element: TAG_GROUP_LENGTH, value: len_value });
    let mut rest = fields;
    let ghost f = rest@;
    r.append(&mut rest);
    assert(elements_view(r@) =~= seq![
        (0u16, TAG_GROUP_LENGTH, le32(elements_bytes(elements_view(f)).len() as u32)),
    ] + elements_view(f));
    r
}

/// Reads the unsigned short at command element `el`.
pub fn get_u16(cmd: &Vec<Element>, el: u16) -> (r: Option<u16>)
    ensures
        r == find_u16(elements_view(cmd@), el),
{
    let ghost s = elements_view(cmd@);
    let mut i: usize = 0;
    assert(s.subrange(0, s.len() as int) =~= s);
    while i < cmd.len()
        invariant
            i <= cmd@.len(),
            s == elements_view(cmd@),
            find_u16(s, el) == find_u16(s.subrange(i as int, s.len() as int), el),
        decreases cmd@.len() - i,
    {
        let e = &cmd[i];
        let ghost t = s.subrange(i as int, s.len() as int);
        assert(t[0] == e@);
        assert(t.drop_first() =~= s.subrange(i + 1, s.len() as int));
        if e.group == 0 && e.element == el {
            if e.value.len() == 2 {
                return Some(crate::wire::read_le16(e.value.as_slice(), 0));
            } else {
                return None;
            }
        }
        i = i + 1;
    }
    None
}

/// Reads the bytes of command element `el`.
pub fn get_value(cmd: &Vec<Element>, el: u16) -> (r: Option<Vec<u8>>)
    ensures
        match find_value(elements_view(cmd@), el) {
            Some(v) => r matches Some(b) && b@ == v,
            None => r is None,
        },
{
    let ghost s = elements_view(cmd@);
    let mut i: usize = 0;
    assert(s.subrange(0, s.len() as int) =~= s);
    while i < cmd.len()
        invariant
            i <= cmd@.len(),
            s == elements_view(cmd@),
            find_value(s, el) == find_value(s.subrange(i as int, s.len() as int), el),
        decreases cmd@.len() - i,
    {
        let e = &cmd[i];
        let ghost t = s.subrange(i as int, s.len() as int);
        assert(t[0] == e@);
        assert(t.drop_first() =~= s.subrange(i + 1, s.len() as int));
        if e.group == 0 && e.element == el {
            return Some(crate::negotiation::copy_bytes(&e.value));
        }
        i = i + 1;
    }
    None
}

/// Whether a dataset follows this command.
pub fn has_dataset(cmd: &Vec<Element>) -> (r: bool)
    ensures
        r == expects_dataset(elements_view(cmd@)),
{
    match get_u16(cmd, TAG_DATA_SET_TYPE) {
        Some(v) => v != DATA_SET_ABSENT,
        None => false,
    }
}

/// The command elements headed by their group length.
pub open spec fn with_length(fields: Seq<(u16, u16, Seq<u8>)>) -> Seq<(u16, u16, Seq<u8>)> {
    seq![(0u16, TAG_GROUP_LENGTH, le32(elements_bytes(fields).len() as u32))] + fields
}

/// Every value fits its length field and the whole fits the group length.
pub open spec fn command_fits(fields: Seq<(u16, u16, Seq<u8>)>) -> bool {
    elements_fit(fields) && elements_bytes(fields).len() <= u32::MAX
}

/// Whether a run of elements can be written as a command set.
pub fn fits(fields: &Vec<Element>) -> (r: bool)
    ensures
        r == command_fits(elements_view(fields@)),
{
    let ghost s = elements_view(fields@);
    let mut total: u64 = 0;
    let mut i: usize = 0;
    assert(elements_bytes(s.subrange(0, 0)) =~= Seq::<u8>::empty());
    while i < fields.len()
        invariant
            i <= fields@.len(),
            s == elements_view(fields@),
            elements_fit(s.subrange(0, i as int)),
            total == elements_bytes(s.subrange(0, i as int)).len(),
            total <= u32::MAX,
        decreases fields@.len() - i,
    {
        let n = fields[i].value.len();
        proof {
            crate::message::lemma_elements_bytes_push(s.subrange(0, i as int), s[i as int]);
            assert(s.subrange(0, i + 1) =~= s.subrange(0, i as int).push(s[i as int]));
        }
        if n as u64 > u32::MAX as u64 || total + 8 + n as u64 > u32::MAX as u64 {
            proof {
                lemma_prefix_bytes_len(s, i + 1);
                if n > u32::MAX {
                    assert(!elements_fit(s)) by {
                        assert(s[i as int].2.len() == n);
                    }
                }
            }
            return false;
        }
        total = total + 8 + n as u64;
        i = i + 1;
    }
    assert(s.subrange(0, s.len() as int) =~= s);
    true
}

pub proof fn lemma_prefix_bytes_len(s: Seq<(u16, u16, Seq<u8>)>, j: int)
    requires
        0 <= j <= s.len(),
    ensures
        elements_bytes(s).len() >= elements_bytes(s.subrange(0, j)).len(),
    decreases s.len(),
{
    if j < s.len() {
        lemma_prefix_bytes_len(s.drop_last(), j);
        crate::message::lemma_elements_bytes_push(s.drop_last(), s.last());
        assert(s.drop_last().push(s.last()) =~= s);
        assert(s.drop_last().subrange(0, j) =~= s.subrange(0, j));
    } else {
        assert(s.subrange(0, j) =~= s);
    }
}

/// A command set from its fields, or `None` when they do not fit.
pub fn command(fields: Vec<Element>) -> (r: Option<Vec<Element>>)
    ensures
        r is Some <==> command_fits(elements_view(fields@)),
        r matches Some(c) ==> elements_view(c@) == with_length(elements_view(fields@))
            && elements_fit(elements_view(c@)),
{
    if !fits(&fields) {
        return None;
    }
    let ghost f = elements_view(fields@);
    let c = with_group_length(fields);
    proof {
        let head = (0u16, TAG_GROUP_LENGTH, le32(elements_bytes(f).len() as u32));
        assert(elements_view(c@) == seq![head] + f);
        assert(seq![head].drop_first() =~= Seq::<(u16, u16, Seq<u8>)>::empty());
        assert((seq![head] + f).drop_first() =~= f);
        assert(elements_bytes(seq![head] + f) =~= element_bytes(head) + elements_bytes(f));
        assert(element_bytes(head).len() == 12);
        assert forall|i: int| 0 <= i < elements_view(c@).len() implies (#[trigger] elements_view(c@)[i]).2.len() <= u32::MAX by {
            if i > 0 {
                assert(elements_view(c@)[i] == f[i - 1]);
            }
        }
    }
    Some(c)
}

/// The bytes of a string.
pub fn str_bytes(s: &str) -> (r: Vec<u8>)
    ensures
        r@ == s.spec_bytes(),
{
    let b = s.as_bytes();
    crate::wire::copy_range(b, 0, b.len())
}

} // verus!
