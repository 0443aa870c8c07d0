use vstd::prelude::*;
use vstd::slice::slice_subrange;
use vstd::bytes::{
    lemma_auto_spec_u16_to_from_le_bytes, lemma_auto_spec_u64_to_from_le_bytes,
    spec_u16_to_le_bytes, spec_u64_to_le_bytes,
};
use vstd::utf8::{decode_utf8, encode_utf8, encode_utf8_decode_utf8, encode_utf8_valid_utf8, valid_utf8};
use crate::bytes::{le16, le64, read16, read64};
use crate::error::FormatError;

verus! {

/// Size of one packed directory entry record.
pub const DIRENT_SIZE: usize = 12;

/// A packed directory entry record: the child's node identifier and where its name starts.
#[derive(Debug, Clone, Copy)]
pub struct DirEnt {
    pub nid: u64,
    pub name_offset: u16,
    pub file_type: u8,
    pub reserved: u8,
}

/// A directory entry together with its decoded name.
#[derive(Debug)]
pub struct MyDirEnt {
    pub dirent: DirEnt,
    pub name: String,
}

impl View for MyDirEnt {
    type V = (DirEnt, Seq<char>);

    open spec fn view(&self) -> (DirEnt, Seq<char>) {
        (self.dirent, self.name@)
    }
}

/// The entries of a decoded list, each as its record and the characters of its name.
pub open spec fn entries_view(v: Seq<MyDirEnt>) -> Seq<(DirEnt, Seq<char>)> {
    v.map_values(|e: MyDirEnt| e@)
}

/// The record stored as entry `i` of directory content `c`.
pub open spec fn dirent_at(c: Seq<u8>, i: int) -> DirEnt {
    DirEnt {
        nid: le64(c, DIRENT_SIZE * i),
        name_offset: le16(c, DIRENT_SIZE * i + 8),
        file_type: c[DIRENT_SIZE * i + 10],
        reserved: c[DIRENT_SIZE * i + 11],
    }
}

/// Index of the first NUL byte of `c` at or after `j`, or the length of `c` where there is none.
pub open spec fn first_nul_from(c: Seq<u8>, j: int) -> int
    decreases c.len() - j,
{
    if j >= c.len() {
        c.len() as int
    } else if c[j] == 0 {
        j
    } else {
        first_nul_from(c, j + 1)
    }
}

/// Number of entries: the first entry's name offset is also the size of the record table.
pub open spec fn entry_count(c: Seq<u8>) -> int {
    le16(c, 8) as int / DIRENT_SIZE as int
}

/// Where the name of entry `i` of `count` starts.
pub open spec fn name_start(c: Seq<u8>, i: int) -> int {
    dirent_at(c, i).name_offset as int
}

/// Where the name of entry `i` of `count` ends: where the next entry's name starts, and
/// for the last entry at the first NUL or the end of the content.
pub open spec fn name_end(c: Seq<u8>, count: int, i: int) -> int {
    if i + 1 < count {
        name_start(c, i + 1)
    } else {
        first_nul_from(c, name_start(c, i))
    }
}

/// The name of entry `i` lies within the content.
pub open spec fn name_in_bounds(c: Seq<u8>, count: int, i: int) -> bool {
    name_start(c, i) <= name_end(c, count, i) <= c.len()
}

/// The raw bytes of the name of entry `i`.
pub open spec fn name_bytes(c: Seq<u8>, count: int, i: int) -> Seq<u8> {
    c.subrange(name_start(c, i), name_end(c, count, i))
}

/// Entry `i` decodes: its name lies within the content and is valid UTF-8.
pub open spec fn entry_ok(c: Seq<u8>, count: int, i: int) -> bool {
    name_in_bounds(c, count, i) && valid_utf8(name_bytes(c, count, i))
}

/// Why entry `i` does not decode.
pub open spec fn entry_error(c: Seq<u8>, count: int, i: int) -> FormatError {
    if !name_in_bounds(c, count, i) {
        FormatError::Truncated
    } else {
        FormatError::InvalidName
    }
}

/// Entry `i`, decoded.
pub open spec fn entry_model(c: Seq<u8>, count: int, i: int) -> (DirEnt, Seq<char>) {
    (dirent_at(c, i), decode_utf8(name_bytes(c, count, i)))
}

/// The first entry that does not decode, where there is one.
pub open spec fn first_bad_entry(c: Seq<u8>, count: int) -> int {
    choose|i: int|
        0 <= i < count && !entry_ok(c, count, i) && forall|j: int| 0 <= j < i ==> entry_ok(c, count, j)
}

/// What decoding the directory content `c` gives: its entries in stored order, or the
/// first error met.
pub open spec fn dirents_result(c: Seq<u8>) -> Result<Seq<(DirEnt, Seq<char>)>, FormatError> {
    let count = entry_count(c);
    if c.len() < DIRENT_SIZE {
        Err(FormatError::Truncated)
    } else if le16(c, 8) as int % DIRENT_SIZE as int != 0 {
        Err(FormatError::Misaligned)
    } else if count == 0 {
        Ok(Seq::empty())
    } else if DIRENT_SIZE * count > c.len() {
        Err(FormatError::Truncated)
    } else if forall|i: int| 0 <= i < count ==> entry_ok(c, count, i) {
        Ok(Seq::new(count as nat, |i: int| entry_model(c, count, i)))
    } else {
        Err(entry_error(c, count, first_bad_entry(c, count)))
    }
}

proof fn lemma_first_bad_entry(c: Seq<u8>, count: int, i: int)
    requires
        0 <= i < count,
        !entry_ok(c, count, i),
        forall|j: int| 0 <= j < i ==> entry_ok(c, count, j),
    ensures
        first_bad_entry(c, count) == i,
{
    let k = first_bad_entry(c, count);
    assert(0 <= k < count && !entry_ok(c, count, k) && forall|j: int|
        0 <= j < k ==> entry_ok(c, count, j));
    if k < i {
        assert(entry_ok(c, count, k));
    } else if k > i {
        assert(entry_ok(c, count, i));
    }
}

/// Relies on `String::from_utf8` from std: it succeeds exactly on valid UTF-8 and then holds
/// the decoded characters.
#[verifier::external_body]
fn utf8_string(b: &[u8]) -> (r: Option<String>)
    ensures
        r is Some <==> valid_utf8(b@),
        r matches Some(s) ==> s@ == decode_utf8(b@),
{
    String::from_utf8(b.to_vec()).ok()
}

/// Reads the record of entry `num`; `None` where it lies past the end of `content`.
pub fn get_dirent(content: &[u8], num: usize) -> (r: Option<DirEnt>)
    ensures
        DIRENT_SIZE * num + DIRENT_SIZE <= content@.len() ==> r == Some(
            dirent_at(content@, num as int),
        ),
        DIRENT_SIZE * num + DIRENT_SIZE > content@.len() ==> r is None,
{
    if num >= content.len() / DIRENT_SIZE {
        return None;
    }
    let at = DIRENT_SIZE * num;
    Some(
        DirEnt {
            nid: read64(content, at),
            name_offset: read16(content, at + 8),
            file_type: content[at + 10],
            reserved: content[at + 11],
        },
    )
}

/// Index of the first NUL byte at or after `start`, or the length of `content`.
fn find_nul(content: &[u8], start: usize) -> (r: usize)
    requires
        start <= content@.len(),
    ensures
        r == first_nul_from(content@, start as int),
{
    let mut j = start;
    while j < content.len() && content[j] != 0
        invariant
            start <= j <= content@.len(),
            first_nul_from(content@, start as int) == first_nul_from(content@, j as int),
        decreases content@.len() - j,
    {
        j = j + 1;
    }
    j
}

/// Decodes the packed entry table of directory content, with each entry's name.
pub fn decode_dirents(content: &[u8]) -> (r: Result<Vec<MyDirEnt>, FormatError>)
    ensures
        match r {
            Ok(v) => dirents_result(content@) == Ok::<Seq<(DirEnt, Seq<char>)>, FormatError>(
                entries_view(v@),
            ),
            Err(e) => dirents_result(content@) == Err::<Seq<(DirEnt, Seq<char>)>, FormatError>(e),
        },
        content@.len() >= DIRENT_SIZE && le16(content@, 8) % 12 != 0 ==> r matches Err(
            FormatError::Misaligned,
        ),
{
    let ghost c = content@;
    let first = match get_dirent(content, 0) {
        Some(d) => d,
        None => return Err(FormatError::Truncated),
    };
    let table = first.name_offset as usize;
    if table % DIRENT_SIZE != 0 {
        return Err(FormatError::Misaligned);
    }
    let count = table / DIRENT_SIZE;
    let ghost count_i = count as int;
    assert(count_i == entry_count(c));
    if count == 0 {
        let v: Vec<MyDirEnt> = Vec::new();
        assert(entries_view(v@) =~= Seq::empty());
        return Ok(v);
    }
    if table > content.len() {
        return Err(FormatError::Truncated);
    }
    let mut out: Vec<MyDirEnt> = Vec::new();
    let mut i: usize = 0;
    while i < count
        invariant
            count_i == count == entry_count(c),
            0 < count,
            DIRENT_SIZE * count <= c.len(),
            c.len() >= DIRENT_SIZE,
            le16(c, 8) as int % DIRENT_SIZE as int == 0,
            c == content@,
            i <= count,
            out@.len() == i,
            forall|j: int| 0 <= j < i ==> entry_ok(c, count_i, j),
            forall|j: int| 0 <= j < i ==> (#[trigger] out@[j])@ == entry_model(c, count_i, j),
        decreases count - i,
    {
        let d = match get_dirent(content, i) {
            Some(d) => d,
            None => return Err(FormatError::Truncated),
        };
        let start = d.name_offset as usize;
        let end = if i + 1 < count {
            match get_dirent(content, i + 1) {
                Some(n) => n.name_offset as usize,
                None => return Err(FormatError::Truncated),
            }
        } else if start <= content.len() {
            find_nul(content, start)
        } else {
            content.len()
        };
        assert(start == name_start(c, i as int));
        if start > end || end > content.len() {
            proof {
                if i + 1 >= count && start > content.len() {
                    assert(name_end(c, count_i, i as int) == c.len());
                }
                lemma_first_bad_entry(c, count_i, i as int);
            }
            return Err(FormatError::Truncated);
        }
        assert(end == name_end(c, count_i, i as int));
        let bytes = slice_subrange(content, start, end);
        let name = match utf8_string(bytes) {
            Some(s) => s,
            None => {
                proof {
                    assert(bytes@ == name_bytes(c, count_i, i as int));
                    assert(!entry_ok(c, count_i, i as int));
                    lemma_first_bad_entry(c, count_i, i as int);
                }
                return Err(FormatError::InvalidName);
            },
        };
        out.push(MyDirEnt { dirent: d, name });
        i = i + 1;
    }
    assert(entries_view(out@) =~= Seq::new(count as nat, |i: int| entry_model(c, count_i, i)));
    Ok(out)
}

/// Directory content `c` lays out `names.len()` entries: entry `i` is a record naming node
/// `nids[i]` with name offset `offs[i]`, the names follow the record table back to back
/// as UTF-8, and the last name ends at a NUL byte or at the end of the content.
pub open spec fn lays_out_entries(
    c: Seq<u8>,
    nids: Seq<u64>,
    offs: Seq<u16>,
    names: Seq<Seq<char>>,
) -> bool {
    let count = names.len() as int;
    let last = count - 1;
    let last_end = offs[last] + encode_utf8(names[last]).len();
    &&& count >= 1
    &&& nids.len() == count && offs.len() == count
    &&& offs[0] == DIRENT_SIZE * count
    &&& forall|i: int|
        0 <= i < last ==> #[trigger] offs[i + 1] == offs[i] + encode_utf8(names[i]).len()
    &&& forall|i: int|
        0 <= i < count ==> c.subrange(DIRENT_SIZE * i, DIRENT_SIZE * i + 8)
            == spec_u64_to_le_bytes(#[trigger] nids[i])
    &&& forall|i: int|
        0 <= i < count ==> c.subrange(DIRENT_SIZE * i + 8, DIRENT_SIZE * i + 10)
            == spec_u16_to_le_bytes(#[trigger] offs[i])
    &&& forall|i: int|
        0 <= i < count ==> c.subrange(offs[i] as int, offs[i] + encode_utf8(#[trigger] names[i]).len())
            == encode_utf8(names[i])
    &&& forall|j: int| 0 <= j < encode_utf8(names[last]).len() ==> #[trigger] encode_utf8(names[last])[j] != 0
    &&& last_end <= c.len()
    &&& last_end == c.len() || c[last_end] == 0
}

proof fn lemma_offsets_grow(offs: Seq<u16>, names: Seq<Seq<char>>, i: int, k: int)
    requires
        offs.len() == names.len(),
        0 <= i <= k < names.len(),
        forall|k: int|
            0 <= k < names.len() - 1 ==> #[trigger] offs[k + 1] == offs[k] + encode_utf8(names[k]).len(),
    ensures
        offs[i] <= offs[k],
    decreases k - i,
{
    if i < k {
        assert(offs[i + 1] == offs[i] + encode_utf8(names[i]).len());
        lemma_offsets_grow(offs, names, i + 1, k);
    }
}

proof fn lemma_first_nul(c: Seq<u8>, start: int, end: int)
    requires
        0 <= start <= end <= c.len(),
        forall|j: int| start <= j < end ==> c[j] != 0,
        end == c.len() || c[end] == 0,
    ensures
        first_nul_from(c, start) == end,
    decreases end - start,
{
    if start < end {
        lemma_first_nul(c, start + 1, end);
    }
}

/// Directory content laid out as `.`, `..` and any number of further named children decodes
/// to exactly as many entries, in stored order, the first two named `.` and `..`.
pub proof fn lemma_dirents_layout(
    c: Seq<u8>,
    nids: Seq<u64>,
    offs: Seq<u16>,
    names: Seq<Seq<char>>,
)
    requires
        lays_out_entries(c, nids, offs, names),
        names.len() >= 2,
        names[0] == seq!['.'],
        names[1] == seq!['.', '.'],
    ensures
        dirents_result(c) is Ok,
        dirents_result(c)->Ok_0.len() == names.len(),
        forall|i: int|
            0 <= i < names.len() ==> (#[trigger] dirents_result(c)->Ok_0[i]).0.nid == nids[i]
                && dirents_result(c)->Ok_0[i].1 == names[i],
        dirents_result(c)->Ok_0[0].1 == seq!['.'],
        dirents_result(c)->Ok_0[1].1 == seq!['.', '.'],
{
    lemma_auto_spec_u16_to_from_le_bytes();
    lemma_auto_spec_u64_to_from_le_bytes();
    broadcast use encode_utf8_valid_utf8, encode_utf8_decode_utf8;

    let count = names.len() as int;
    let last = count - 1;
    lemma_offsets_grow(offs, names, 0, last);
    assert(spec_u16_to_le_bytes(offs[0]).len() == 2);
    assert(c.subrange(8, 10) == spec_u16_to_le_bytes(offs[0]));
    assert(le16(c, 8) == offs[0]);
    assert(entry_count(c) == count);
    assert forall|i: int| 0 <= i < count implies dirent_at(c, i).nid == nids[i] && name_start(c, i)
        == offs[i] by {
        assert(spec_u64_to_le_bytes(nids[i]).len() == 8);
        assert(spec_u16_to_le_bytes(offs[i]).len() == 2);
        assert(c.subrange(DIRENT_SIZE * i + 8, DIRENT_SIZE * i + 10) == spec_u16_to_le_bytes(offs[i]));
        assert(c.subrange(DIRENT_SIZE * i, DIRENT_SIZE * i + 8) == spec_u64_to_le_bytes(nids[i]));
    }
    assert forall|i: int| 0 <= i < count implies #[trigger] name_bytes(c, count, i) == encode_utf8(
        names[i],
    ) && name_in_bounds(c, count, i) by {
        let e = encode_utf8(names[i]);
        if i < last {
            lemma_offsets_grow(offs, names, i + 1, last);
        }
        let sub = c.subrange(offs[i] as int, offs[i] + e.len());
        assert(sub == e);
        if i < last {
            assert(offs[i + 1] == offs[i] + e.len());
        } else {
            assert forall|j: int| offs[i] <= j < offs[i] + e.len() implies c[j] != 0 by {
                assert(sub[j - offs[i]] == c[j]);
            }
            lemma_first_nul(c, offs[i] as int, offs[i] + e.len());
        }
    }
    assert forall|i: int| 0 <= i < count implies entry_ok(c, count, i) by {
        assert(name_bytes(c, count, i) == encode_utf8(names[i]));
    }
    let s = dirents_result(c)->Ok_0;
    assert forall|i: int| 0 <= i < count implies (#[trigger] s[i]).0.nid == nids[i] && s[i].1
        == names[i] by {
        assert(s[i] == entry_model(c, count, i));
        assert(name_bytes(c, count, i) == encode_utf8(names[i]));
    }
    assert(s[0].1 == names[0]);
    assert(s[1].1 == names[1]);
}

} // verus!
