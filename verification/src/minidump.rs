//! Naming and taking of memory dumps.
//!
//! A dump file is called `<base>.<ext>`, or, where sequence numbers are asked
//! for, `<base>-<hhhh>.<ext>` with four hexadecimal digits. The number is the
//! smallest one that no file in the directory carries yet, so gaps are filled
//! first; once `0000` to `fffe` are all taken the number is `ffff`, and that
//! file is overwritten from then on.

use vstd::prelude::*;
use vstd::string::StringExecFns;
use crate::err::{Error, ErrorView};
use crate::text::{
    char_to_digit, chars_of, digit_char, hex4_number, hex4_text, hex_value, lemma_digit_char_value,
    push_hex4,
};

verus! {

/// The highest sequence number. It is handed out when every lower one is
/// taken, whether or not a file carries it.
pub const LAST_SLOT: u16 = 0xFFFF;

/// The sequence number that a file name carries, if it is of the form
/// `<base>-<hhhh>.<ext>`: four hexadecimal digits, in either case, between a
/// hyphen and a full stop.
pub open spec fn slot_of(name: Seq<char>, base: Seq<char>, ext: Seq<char>) -> Option<int> {
    let b = base.len() as int;
    if name.len() == b + 6 + ext.len() && name.subrange(0, b) == base && name[b] == '-'
        && hex_value(name[b + 1]) is Some && hex_value(name[b + 2]) is Some && hex_value(
        name[b + 3],
    ) is Some && hex_value(name[b + 4]) is Some && name[b + 5] == '.' && name.subrange(
        b + 6,
        name.len() as int,
    ) == ext {
        Some(
            hex4_number(
                hex_value(name[b + 1])->0,
                hex_value(name[b + 2])->0,
                hex_value(name[b + 3])->0,
                hex_value(name[b + 4])->0,
            ),
        )
    } else {
        None
    }
}

/// A name made of a base, a hyphen, four characters, a full stop and an
/// extension.
pub open spec fn numbered(
    base: Seq<char>,
    c3: char,
    c2: char,
    c1: char,
    c0: char,
    ext: Seq<char>,
) -> Seq<char> {
    base + seq!['-', c3, c2, c1, c0, '.'] + ext
}

/// The sequence numbers that the names of a directory carry.
pub open spec fn occupied(names: Seq<Seq<char>>, base: Seq<char>, ext: Seq<char>) -> Set<int> {
    Set::new(
        |v: int|
            exists|i: int| 0 <= i < names.len() && #[trigger] slot_of(names[i], base, ext) == Some(v),
    )
}

/// `n` is the number to use next: every number below it is taken, and it is
/// free itself unless it is the last one.
pub open spec fn is_next_slot(taken: Set<int>, n: int) -> bool {
    &&& 0 <= n <= LAST_SLOT
    &&& forall|k: int| 0 <= k < n ==> taken.contains(k)
    &&& n < LAST_SLOT ==> !taken.contains(n)
}

/// The number to use next, given the numbers that are taken.
pub open spec fn free_slot(taken: Set<int>) -> int {
    choose|n: int| is_next_slot(taken, n)
}

/// The file name with sequence number `n`.
pub open spec fn seq_name(base: Seq<char>, n: int, ext: Seq<char>) -> Seq<char> {
    base + seq!['-'] + hex4_text(n) + seq!['.'] + ext
}

/// The file name without a sequence number.
pub open spec fn plain_name(base: Seq<char>, ext: Seq<char>) -> Seq<char> {
    base + seq!['.'] + ext
}

/// Whether `needle` stands in `hay` from position `at` on.
fn matches_at(hay: &Vec<char>, at: usize, needle: &Vec<char>) -> (r: bool)
    requires
        at + needle.len() <= hay.len(),
    ensures
        r == (hay@.subrange(at as int, at + needle.len()) == needle@),
{
    let mut i: usize = 0;
    while i < needle.len()
        invariant
            i <= needle.len(),
            at + needle.len() <= hay.len(),
            hay@.subrange(at as int, at + i) == needle@.subrange(0, i as int),
        decreases needle.len() - i,
    {
        if hay[at + i] != needle[i] {
            assert(hay@.subrange(at as int, at + needle.len())[i as int] != needle@[i as int]);
            return false;
        }
        assert(hay@.subrange(at as int, at + i + 1) == hay@.subrange(at as int, at + i).push(
            hay@[at + i],
        ));
        assert(needle@.subrange(0, i + 1) == needle@.subrange(0, i as int).push(needle@[i as int]));
        i = i + 1;
    }
    assert(needle@.subrange(0, needle.len() as int) == needle@);
    true
}

/// The sequence number in a name given as characters.
fn slot_of_chars(name: &Vec<char>, base: &Vec<char>, ext: &Vec<char>) -> (r: Option<u16>)
    ensures
        r is Some <==> slot_of(name@, base@, ext@) is Some,
        r is Some ==> slot_of(name@, base@, ext@) == Some(r->0 as int),
{
    if name.len() < 6 {
        return None;
    }
    let rest: usize = name.len() - 6;
    if base.len() > rest || rest - base.len() != ext.len() {
        return None;
    }
    let b: usize = base.len();
    if !matches_at(name, 0, base) || name[b] != '-' || name[b + 5] != '.' || !matches_at(
        name,
        b + 6,
        ext,
    ) {
        return None;
    }
    let d3 = char_to_digit(name[b + 1]);
    let d2 = char_to_digit(name[b + 2]);
    let d1 = char_to_digit(name[b + 3]);
    let d0 = char_to_digit(name[b + 4]);
    match (d3, d2, d1, d0) {
        (Some(h3), Some(h2), Some(h1), Some(h0)) => {
            assert(hex_value(name@[b + 1]) == Some(h3 as int));
            assert(h3 < 16 && h2 < 16 && h1 < 16 && h0 < 16);
            let hi: u16 = h3 as u16 * 4096 + h2 as u16 * 256;
            let lo: u16 = h1 as u16 * 16 + h0 as u16;
            Some(hi + lo)
        },
        _ => None,
    }
}

/// The sequence number that a file name carries for the given base name and
/// extension, or `None` where the name is of another form.
pub fn parse_slot(name: &str, base: &str, ext: &str) -> (r: Option<u16>)
    ensures
        r is Some <==> slot_of(name@, base@, ext@) is Some,
        r is Some ==> slot_of(name@, base@, ext@) == Some(r->0 as int),
{
    let n = chars_of(name);
    let b = chars_of(base);
    let e = chars_of(ext);
    slot_of_chars(&n, &b, &e)
}

/// The number for the next dump among the file names of a directory: the
/// smallest one that none of them carries, or the last one where all below
/// it are taken.
pub fn next_slot(names: &Vec<String>, base: &str, ext: &str) -> (n: u16)
    ensures
        is_next_slot(occupied(names.deep_view(), base@, ext@), n as int),
        n == free_slot(occupied(names.deep_view(), base@, ext@)),
{
    let b = chars_of(base);
    let e = chars_of(ext);
    let ghost all = names.deep_view();
    let mut taken: Vec<bool> = Vec::new();
    let mut k: usize = 0;
    while k < 0xFFFF
        invariant
            k <= 0xFFFF,
            taken.len() == k,
            forall|v: int| 0 <= v < k ==> !#[trigger] taken[v],
        decreases 0xFFFF - k,
    {
        taken.push(false);
        k = k + 1;
    }
    let mut i: usize = 0;
    while i < names.len()
        invariant
            i <= names.len(),
            all == names.deep_view(),
            b@ == base@,
            e@ == ext@,
            taken.len() == 0xFFFF,
            forall|v: int|
                0 <= v < 0xFFFF ==> (#[trigger] taken[v] <==> occupied(
                    all.subrange(0, i as int),
                    base@,
                    ext@,
                ).contains(v)),
        decreases names.len() - i,
    {
        let c = chars_of(names[i].as_str());
        let found = slot_of_chars(&c, &b, &e);
        proof {
            let before = all.subrange(0, i as int);
            let after = all.subrange(0, i + 1);
            assert(after == before.push(all[i as int]));
            assert(all[i as int] == c@);
            lemma_occupied_push(before, c@, base@, ext@);
        }
        match found {
            Some(s) => {
                if s < 0xFFFF {
                    taken.set(s as usize, true);
                }
            },
            None => {},
        }
        i = i + 1;
    }
    assert(all.subrange(0, names.len() as int) == all);
    let mut n: u16 = 0;
    while n < 0xFFFF && taken[n as usize]
        invariant
            n <= 0xFFFF,
            taken.len() == 0xFFFF,
            forall|v: int|
                0 <= v < 0xFFFF ==> (#[trigger] taken[v] <==> occupied(all, base@, ext@).contains(
                    v,
                )),
            forall|v: int| 0 <= v < n ==> occupied(all, base@, ext@).contains(v),
        decreases 0xFFFF - n,
    {
        n = n + 1;
    }
    proof {
        lemma_free_slot(occupied(all, base@, ext@));
        lemma_next_slot_unique(
            occupied(all, base@, ext@),
            n as int,
            free_slot(occupied(all, base@, ext@)),
        );
    }
    n
}

/// The file name `<base>-<hhhh>.<ext>` for sequence number `n`, in lower-case
/// digits.
pub fn sequenced_name(base: &str, n: u16, ext: &str) -> (name: String)
    ensures
        name@ == seq_name(base@, n as int, ext@),
{
    let mut name = String::from_str(base);
    name.push('-');
    push_hex4(&mut name, n);
    name.push('.');
    name.append(ext);
    assert(name@ == seq_name(base@, n as int, ext@));
    name
}

/// The file name `<base>.<ext>`.
pub fn unsequenced_name(base: &str, ext: &str) -> (name: String)
    ensures
        name@ == plain_name(base@, ext@),
{
    let mut name = String::from_str(base);
    name.push('.');
    name.append(ext);
    assert(name@ == plain_name(base@, ext@));
    name
}

/// The name for the next dump file among the file names of a directory. It
/// carries the smallest sequence number that none of them carries, or the
/// last one where all below it are taken. Nothing is kept between calls: the
/// names are read afresh each time.
pub fn allocate(names: &Vec<String>, base: &str, ext: &str) -> (name: String)
    ensures
        name@ == seq_name(base@, free_slot(occupied(names.deep_view(), base@, ext@)), ext@),
{
    let n = next_slot(names, base, ext);
    sequenced_name(base, n, ext)
}

/// Some number is always next: allocation never fails for want of numbers.
pub proof fn lemma_free_slot(taken: Set<int>)
    ensures
        is_next_slot(taken, free_slot(taken)),
{
    lemma_slot_exists(taken, 0);
}

proof fn lemma_slot_exists(taken: Set<int>, k: int)
    requires
        0 <= k <= LAST_SLOT,
        forall|j: int| 0 <= j < k ==> taken.contains(j),
    ensures
        exists|n: int| is_next_slot(taken, n),
    decreases LAST_SLOT - k,
{
    if k < LAST_SLOT && taken.contains(k) {
        lemma_slot_exists(taken, k + 1);
    } else {
        assert(is_next_slot(taken, k));
    }
}

/// Against an unchanged set of taken numbers the next number is always the
/// same one.
pub proof fn lemma_next_slot_unique(taken: Set<int>, a: int, b: int)
    requires
        is_next_slot(taken, a),
        is_next_slot(taken, b),
    ensures
        a == b,
{
    if a < b {
        assert(taken.contains(a));
    } else if b < a {
        assert(taken.contains(b));
    }
}

/// While a number below the last one is free, the next number is free and
/// no free number is smaller.
pub proof fn lemma_next_slot_is_smallest_free(taken: Set<int>, free: int)
    requires
        0 <= free < LAST_SLOT,
        !taken.contains(free),
    ensures
        !taken.contains(free_slot(taken)),
        0 <= free_slot(taken) <= free,
{
    lemma_free_slot(taken);
    let n = free_slot(taken);
    if n > free {
        assert(taken.contains(free));
    }
}

/// Once every number below the last one is taken, the last one is next,
/// whether or not it is taken too.
pub proof fn lemma_next_slot_when_full(taken: Set<int>)
    requires
        forall|k: int| 0 <= k < LAST_SLOT ==> taken.contains(k),
    ensures
        free_slot(taken) == LAST_SLOT,
{
    lemma_free_slot(taken);
}

/// The numbers taken depend on which names a directory holds, not on the
/// order or the number of times they are listed.
pub proof fn lemma_occupied_by_names(
    first: Seq<Seq<char>>,
    second: Seq<Seq<char>>,
    base: Seq<char>,
    ext: Seq<char>,
)
    requires
        first.to_set() == second.to_set(),
    ensures
        occupied(first, base, ext) == occupied(second, base, ext),
{
    assert forall|v: int| occupied(first, base, ext).contains(v) implies occupied(
        second,
        base,
        ext,
    ).contains(v) by {
        let i = choose|i: int|
            0 <= i < first.len() && #[trigger] slot_of(first[i], base, ext) == Some(v);
        assert(first.to_set().contains(first[i]));
        assert(second.contains(first[i]));
        let j = choose|j: int| 0 <= j < second.len() && second[j] == first[i];
        assert(slot_of(second[j], base, ext) == Some(v));
    }
    assert forall|v: int| occupied(second, base, ext).contains(v) implies occupied(
        first,
        base,
        ext,
    ).contains(v) by {
        let i = choose|i: int|
            0 <= i < second.len() && #[trigger] slot_of(second[i], base, ext) == Some(v);
        assert(second.to_set().contains(second[i]));
        assert(first.contains(second[i]));
        let j = choose|j: int| 0 <= j < first.len() && first[j] == second[i];
        assert(slot_of(first[j], base, ext) == Some(v));
    }
    assert(occupied(first, base, ext) =~= occupied(second, base, ext));
}

/// A name carries a sequence number exactly when it is the base, a hyphen,
/// four hexadecimal digits, a full stop and the extension, with nothing
/// before, between or after; the number is the one that the digits stand
/// for.
pub proof fn lemma_slot_of_pattern(name: Seq<char>, base: Seq<char>, ext: Seq<char>)
    ensures
        slot_of(name, base, ext) is Some <==> exists|c3: char, c2: char, c1: char, c0: char|
            hex_value(c3) is Some && hex_value(c2) is Some && hex_value(c1) is Some && hex_value(
                c0,
            ) is Some && name == #[trigger] numbered(base, c3, c2, c1, c0, ext),
        forall|c3: char, c2: char, c1: char, c0: char|
            hex_value(c3) is Some && hex_value(c2) is Some && hex_value(c1) is Some && hex_value(
                c0,
            ) is Some && name == #[trigger] numbered(base, c3, c2, c1, c0, ext) ==> slot_of(
                name,
                base,
                ext,
            ) == Some(
                hex4_number(
                    hex_value(c3)->0,
                    hex_value(c2)->0,
                    hex_value(c1)->0,
                    hex_value(c0)->0,
                ),
            ),
{
    let b = base.len() as int;
    if slot_of(name, base, ext) is Some {
        let made = numbered(base, name[b + 1], name[b + 2], name[b + 3], name[b + 4], ext);
        assert(name.subrange(0, b) == base);
        assert(name.subrange(b + 6, name.len() as int) == ext);
        assert forall|i: int| 0 <= i < name.len() implies name[i] == made[i] by {
            if i < b {
                assert(name[i] == name.subrange(0, b)[i]);
            } else if i >= b + 6 {
                assert(name[i] == name.subrange(b + 6, name.len() as int)[i - b - 6]);
            }
        }
        assert(name =~= made);
    }
    assert forall|c3: char, c2: char, c1: char, c0: char|
        hex_value(c3) is Some && hex_value(c2) is Some && hex_value(c1) is Some && hex_value(
            c0,
        ) is Some && name == #[trigger] numbered(base, c3, c2, c1, c0, ext) implies slot_of(
        name,
        base,
        ext,
    ) == Some(
        hex4_number(hex_value(c3)->0, hex_value(c2)->0, hex_value(c1)->0, hex_value(c0)->0),
    ) by {
        assert(name.len() == b + 6 + ext.len());
        assert(name.subrange(0, b) =~= base);
        assert(name.subrange(b + 6, name.len() as int) =~= ext);
        assert(name[b] == '-');
        assert(name[b + 1] == c3);
        assert(name[b + 2] == c2);
        assert(name[b + 3] == c1);
        assert(name[b + 4] == c0);
        assert(name[b + 5] == '.');
    }
}

/// Four hexadecimal digits make up the number they were taken from.
proof fn lemma_hex4_digits(n: u16)
    ensures
        (n / 4096 % 16) * 4096 + (n / 256 % 16) * 256 + (n / 16 % 16) * 16 + n % 16 == n,
        n / 4096 % 16 < 16,
        n / 256 % 16 < 16,
        n / 16 % 16 < 16,
        n % 16 < 16,
{
    assert((n / 4096 % 16) * 4096 + (n / 256 % 16) * 256 + (n / 16 % 16) * 16 + n % 16 == n)
        by (bit_vector);
}

/// A sequenced file name is read back as the number it was made from.
pub proof fn lemma_seq_name_slot(base: Seq<char>, n: int, ext: Seq<char>)
    requires
        0 <= n <= LAST_SLOT,
    ensures
        slot_of(seq_name(base, n, ext), base, ext) == Some(n),
{
    let name = seq_name(base, n, ext);
    let b = base.len() as int;
    let d3 = n / 4096 % 16;
    let d2 = n / 256 % 16;
    let d1 = n / 16 % 16;
    let d0 = n % 16;
    lemma_hex4_digits(n as u16);
    lemma_digit_char_value(d3);
    lemma_digit_char_value(d2);
    lemma_digit_char_value(d1);
    lemma_digit_char_value(d0);
    assert(hex4_text(n) == seq![digit_char(d3), digit_char(d2), digit_char(d1), digit_char(d0)]);
    assert(name.len() == b + 6 + ext.len());
    assert(name.subrange(0, b) == base);
    assert(name.subrange(b + 6, name.len() as int) == ext);
    assert(name[b] == '-');
    assert(name[b + 1] == digit_char(d3));
    assert(name[b + 2] == digit_char(d2));
    assert(name[b + 3] == digit_char(d1));
    assert(name[b + 4] == digit_char(d0));
    assert(name[b + 5] == '.');
    assert(hex4_number(d3, d2, d1, d0) == n);
}

/// Once the file that was named has been written, its number is taken: the
/// next name carries a higher number, until the last one is reached.
pub proof fn lemma_next_after_dump(names: Seq<Seq<char>>, base: Seq<char>, ext: Seq<char>)
    ensures
        ({
            let n = free_slot(occupied(names, base, ext));
            let after = names.push(seq_name(base, n, ext));
            let m = free_slot(occupied(after, base, ext));
            &&& n < LAST_SLOT ==> n < m
            &&& n == LAST_SLOT ==> m == LAST_SLOT
        }),
{
    let taken = occupied(names, base, ext);
    let n = free_slot(taken);
    let after = names.push(seq_name(base, n, ext));
    let m = free_slot(occupied(after, base, ext));
    lemma_free_slot(taken);
    lemma_free_slot(occupied(after, base, ext));
    lemma_seq_name_slot(base, n, ext);
    lemma_occupied_push(names, seq_name(base, n, ext), base, ext);
    assert(occupied(after, base, ext) == taken.insert(n));
    if m < n {
        assert(taken.contains(m));
    }
}

/// When the file with a number below the next one is deleted, that number
/// is the next one: gaps are filled before higher numbers are used.
pub proof fn lemma_gap_filled_first(taken: Set<int>, k: int)
    requires
        0 <= k < free_slot(taken),
    ensures
        free_slot(taken.remove(k)) == k,
{
    lemma_free_slot(taken);
    lemma_free_slot(taken.remove(k));
    assert(is_next_slot(taken.remove(k), k));
    lemma_next_slot_unique(taken.remove(k), k, free_slot(taken.remove(k)));
}

/// One more name adds its own number, if it has one, to those taken.
pub proof fn lemma_occupied_push(
    names: Seq<Seq<char>>,
    name: Seq<char>,
    base: Seq<char>,
    ext: Seq<char>,
)
    ensures
        occupied(names.push(name), base, ext) == match slot_of(name, base, ext) {
            Some(v) => occupied(names, base, ext).insert(v),
            None => occupied(names, base, ext),
        },
{
    let more = names.push(name);
    let lhs = occupied(more, base, ext);
    let rhs = match slot_of(name, base, ext) {
        Some(v) => occupied(names, base, ext).insert(v),
        None => occupied(names, base, ext),
    };
    assert forall|v: int| lhs.contains(v) implies rhs.contains(v) by {
        let i = choose|i: int| 0 <= i < more.len() && #[trigger] slot_of(more[i], base, ext) == Some(v);
        if i < names.len() {
            assert(more[i] == names[i]);
        } else {
            assert(more[i] == name);
        }
    }
    assert forall|v: int| rhs.contains(v) implies lhs.contains(v) by {
        if occupied(names, base, ext).contains(v) {
            let i = choose|i: int|
                0 <= i < names.len() && #[trigger] slot_of(names[i], base, ext) == Some(v);
            assert(more[i] == names[i]);
        } else {
            assert(more[names.len() as int] == name);
        }
    }
    assert(lhs =~= rhs);
}

/// How much of the process a dump holds.
#[derive(Clone, Copy, Debug, PartialEq, Eq, Structural)]
pub enum DumpType {
    /// Stacks and what is needed to walk them.
    Normal,
    /// All memory that the process can reach.
    FullMem,
}

/// What dump to write, and where.
#[derive(Debug, PartialEq, Eq)]
pub struct DumpInfo {
    /// The directory for the dump file, as an absolute path; the working
    /// directory of the process where it is `None`.
    pub dumpsdir: Option<String>,
    /// The base of the file name; `minidump` where it is `None`.
    pub name: Option<String>,
    /// Whether the file name carries a sequence number.
    pub seq: bool,
    /// How much the dump holds.
    pub mdtype: DumpType,
}

/// A [`DumpInfo`] with its texts as sequences of characters.
pub struct DumpInfoView {
    pub dumpsdir: Option<Seq<char>>,
    pub name: Option<Seq<char>>,
    pub seq: bool,
    pub mdtype: DumpType,
}

impl View for DumpInfo {
    type V = DumpInfoView;

    open spec fn view(&self) -> DumpInfoView {
        DumpInfoView {
            dumpsdir: match self.dumpsdir {
                Some(d) => Some(d@),
                None => None,
            },
            name: match self.name {
                Some(n) => Some(n@),
                None => None,
            },
            seq: self.seq,
            mdtype: self.mdtype,
        }
    }
}

impl Default for DumpInfo {
    /// A normal dump in the working directory, under the default name,
    /// without a sequence number.
    fn default() -> (d: DumpInfo)
        ensures
            d@ == (DumpInfoView { dumpsdir: None, name: None, seq: false, mdtype: DumpType::Normal }),
    {
        DumpInfo { dumpsdir: None, name: None, seq: false, mdtype: DumpType::Normal }
    }
}

impl Clone for DumpInfo {
    fn clone(&self) -> (d: DumpInfo)
        ensures
            d == *self,
    {
        DumpInfo {
            dumpsdir: match &self.dumpsdir {
                Some(d) => Some(d.clone()),
                None => None,
            },
            name: match &self.name {
                Some(n) => Some(n.clone()),
                None => None,
            },
            seq: self.seq,
            mdtype: self.mdtype,
        }
    }
}

impl DumpInfoView {
    /// The base of the file name.
    pub open spec fn base(self) -> Seq<char> {
        match self.name {
            Some(n) => n,
            None => "minidump"@,
        }
    }

    /// What to do once the directory is known: list it where a sequence
    /// number has to be picked, else create the file.
    pub open spec fn in_dir(self, dir: Seq<char>) -> DumpActionView {
        if self.seq {
            DumpActionView::List { dir }
        } else {
            DumpActionView::Create { dir, file: plain_name(self.base(), "dmp"@) }
        }
    }

    /// What to do after `event`.
    pub open spec fn next(self, event: DumpEventView) -> DumpActionView {
        match event {
            DumpEventView::Begin => match self.dumpsdir {
                Some(dir) => self.in_dir(dir),
                None => DumpActionView::WorkingDir,
            },
            DumpEventView::WorkingDir(Ok(dir)) => self.in_dir(dir),
            DumpEventView::WorkingDir(Err(e)) => DumpActionView::Finish(Err(e)),
            DumpEventView::Listed { dir, names: Ok(names) } => DumpActionView::Create {
                dir,
                file: seq_name(self.base(), free_slot(occupied(names, self.base(), "dmp"@)), "dmp"@),
            },
            DumpEventView::Listed { dir, names: Err(reason) } => DumpActionView::Finish(
                Err(ErrorView::BadFormat(reason)),
            ),
            DumpEventView::Created(Ok(())) => DumpActionView::Write { kind: self.mdtype },
            DumpEventView::Created(Err(reason)) => DumpActionView::Finish(
                Err(ErrorView::MiniDump(reason)),
            ),
            DumpEventView::Written(Ok(())) => DumpActionView::Finish(Ok(())),
            DumpEventView::Written(Err(reason)) => DumpActionView::Finish(
                Err(ErrorView::MiniDump(reason)),
            ),
        }
    }
}

/// What the thread that takes a dump is told to do next.
#[derive(Debug, PartialEq, Eq)]
pub enum DumpAction {
    /// Ask for the working directory of the process.
    WorkingDir,
    /// Read the file names of the directory.
    List { dir: String },
    /// Create the file in the directory, replacing one of that name.
    Create { dir: String, file: String },
    /// Write a dump of this process into the file just created.
    Write { kind: DumpType },
    /// Stop, with this result.
    Finish(Result<(), Error>),
}

/// A [`DumpAction`] with its texts as sequences of characters.
pub enum DumpActionView {
    WorkingDir,
    List { dir: Seq<char> },
    Create { dir: Seq<char>, file: Seq<char> },
    Write { kind: DumpType },
    Finish(Result<(), ErrorView>),
}

/// The view of a dump's result.
pub open spec fn result_view(r: Result<(), Error>) -> Result<(), ErrorView> {
    match r {
        Ok(()) => Ok(()),
        Err(e) => Err(e@),
    }
}

impl View for DumpAction {
    type V = DumpActionView;

    open spec fn view(&self) -> DumpActionView {
        match self {
            DumpAction::WorkingDir => DumpActionView::WorkingDir,
            DumpAction::List { dir } => DumpActionView::List { dir: dir@ },
            DumpAction::Create { dir, file } => DumpActionView::Create { dir: dir@, file: file@ },
            DumpAction::Write { kind } => DumpActionView::Write { kind: *kind },
            DumpAction::Finish(r) => DumpActionView::Finish(result_view(*r)),
        }
    }
}

/// What the thread that takes a dump reports back.
#[derive(Debug, PartialEq, Eq)]
pub enum DumpEvent {
    /// Nothing has been done yet.
    Begin,
    /// The working directory, or why it could not be had.
    WorkingDir(Result<String, Error>),
    /// The file names of `dir`, or why it could not be listed.
    Listed { dir: String, names: Result<Vec<String>, String> },
    /// The file was created, or why it could not be.
    Created(Result<(), String>),
    /// The dump was written, or why it could not be.
    Written(Result<(), String>),
}

/// A [`DumpEvent`] with its texts as sequences of characters.
pub enum DumpEventView {
    Begin,
    WorkingDir(Result<Seq<char>, ErrorView>),
    Listed { dir: Seq<char>, names: Result<Seq<Seq<char>>, Seq<char>> },
    Created(Result<(), Seq<char>>),
    Written(Result<(), Seq<char>>),
}

impl View for DumpEvent {
    type V = DumpEventView;

    open spec fn view(&self) -> DumpEventView {
        match self {
            DumpEvent::Begin => DumpEventView::Begin,
            DumpEvent::WorkingDir(Ok(dir)) => DumpEventView::WorkingDir(Ok(dir@)),
            DumpEvent::WorkingDir(Err(e)) => DumpEventView::WorkingDir(Err(e@)),
            DumpEvent::Listed { dir, names: Ok(names) } => DumpEventView::Listed {
                dir: dir@,
                names: Ok(names.deep_view()),
            },
            DumpEvent::Listed { dir, names: Err(reason) } => DumpEventView::Listed {
                dir: dir@,
                names: Err(reason@),
            },
            DumpEvent::Created(Ok(())) => DumpEventView::Created(Ok(())),
            DumpEvent::Created(Err(reason)) => DumpEventView::Created(Err(reason@)),
            DumpEvent::Written(Ok(())) => DumpEventView::Written(Ok(())),
            DumpEvent::Written(Err(reason)) => DumpEventView::Written(Err(reason@)),
        }
    }
}

impl DumpInfo {
    /// The base of the dump file's name: the one asked for, else `minidump`.
    pub fn base_name(&self) -> (base: String)
        ensures
            base@ == self@.base(),
    {
        match &self.name {
            Some(n) => n.clone(),
            None => String::from_str("minidump"),
        }
    }

    fn in_dir(&self, dir: String) -> (action: DumpAction)
        ensures
            action@ == self@.in_dir(dir@),
    {
        if self.seq {
            DumpAction::List { dir }
        } else {
            let base = self.base_name();
            DumpAction::Create { dir, file: unsequenced_name(base.as_str(), "dmp") }
        }
    }

    /// The next thing to do for this dump, given what the last one came to.
    ///
    /// The thread that takes the dump starts with [`DumpEvent::Begin`],
    /// does what it is told, reports what came of it, and stops at
    /// [`DumpAction::Finish`]. A failure ends the dump at once: nothing is
    /// tried a second time.
    pub fn next(&self, event: DumpEvent) -> (action: DumpAction)
        ensures
            action@ == self@.next(event@),
    {
        match event {
            DumpEvent::Begin => match &self.dumpsdir {
                Some(dir) => self.in_dir(dir.clone()),
                None => DumpAction::WorkingDir,
            },
            DumpEvent::WorkingDir(Ok(dir)) => self.in_dir(dir),
            DumpEvent::WorkingDir(Err(e)) => DumpAction::Finish(Err(e)),
            DumpEvent::Listed { dir, names: Ok(names) } => {
                let base = self.base_name();
                DumpAction::Create { dir, file: allocate(&names, base.as_str(), "dmp") }
            },
            DumpEvent::Listed { dir, names: Err(reason) } => DumpAction::Finish(
                Err(Error::BadFormat(reason)),
            ),
            DumpEvent::Created(Ok(())) => DumpAction::Write { kind: self.mdtype },
            DumpEvent::Created(Err(reason)) => DumpAction::Finish(Err(Error::MiniDump(reason))),
            DumpEvent::Written(Ok(())) => DumpAction::Finish(Ok(())),
            DumpEvent::Written(Err(reason)) => DumpAction::Finish(Err(Error::MiniDump(reason))),
        }
    }
}

/// What a dump came to, as seen by the thread that waited for it: the
/// result of the thread that took the dump, or a dump failure where that
/// thread died before it had one.
pub fn joined(outcome: Option<Result<(), Error>>) -> (r: Result<(), Error>)
    ensures
        result_view(r) == match outcome {
            Some(done) => result_view(done),
            None => Err(ErrorView::MiniDump("the dump thread panicked"@)),
        },
{
    match outcome {
        Some(done) => done,
        None => Err(Error::MiniDump(String::from_str("the dump thread panicked"))),
    }
}

/// A dump succeeds only when the dump itself was written, and the dump is
/// written only into a file that was created.
pub proof fn lemma_dump_order(info: DumpInfoView, event: DumpEventView)
    ensures
        (info.next(event) is Finish && info.next(event)->Finish_0 is Ok) <==> (event is Written
            && event->Written_0 is Ok),
        info.next(event) is Write <==> (event is Created && event->Created_0 is Ok),
{
}

/// How far a dump has come when `event` is reported.
pub open spec fn stage(event: DumpEventView) -> int {
    match event {
        DumpEventView::Begin => 0,
        DumpEventView::WorkingDir(_) => 1,
        DumpEventView::Listed { .. } => 2,
        DumpEventView::Created(_) => 3,
        DumpEventView::Written(_) => 4,
    }
}

/// How far a dump has come when what `action` asks for is reported; past
/// every report once it is finished.
pub open spec fn asked_stage(action: DumpActionView) -> int {
    match action {
        DumpActionView::WorkingDir => 1,
        DumpActionView::List { .. } => 2,
        DumpActionView::Create { .. } => 3,
        DumpActionView::Write { .. } => 4,
        DumpActionView::Finish(_) => 5,
    }
}

/// A dump only moves forward: what is asked for next lies past what was
/// just reported, so nothing is tried twice and a dump is finished after
/// five steps at most.
pub proof fn lemma_dump_progress(info: DumpInfoView, event: DumpEventView)
    ensures
        stage(event) < asked_stage(info.next(event)) <= 5,
        asked_stage(info.next(event)) == 5 <==> info.next(event) is Finish,
{
}

/// The file that is created carries a sequence number exactly where the
/// directory was listed for it, and the directory is listed exactly where a
/// sequence number was asked for.
pub proof fn lemma_dump_file(info: DumpInfoView, event: DumpEventView)
    requires
        event is Begin || event is WorkingDir,
    ensures
        info.next(event) is List ==> info.seq,
        info.next(event) is Create ==> !info.seq && info.next(event)->Create_file == plain_name(
            info.base(),
            "dmp"@,
        ),
        event is Begin && info.dumpsdir is Some ==> (info.seq ==> info.next(event)
            == DumpActionView::List { dir: info.dumpsdir->0 }) && (!info.seq ==> info.next(
            event,
        ) is Create && info.next(event)->Create_dir == info.dumpsdir->0),
{
}

/// After a listing the file is created in the directory that was listed,
/// under a name with a sequence number that no listed name carries, unless
/// it is the last one.
pub proof fn lemma_dump_file_listed(
    info: DumpInfoView,
    dir: Seq<char>,
    names: Seq<Seq<char>>,
)
    ensures
        ({
            let action = info.next(DumpEventView::Listed { dir, names: Ok(names) });
            let n = free_slot(occupied(names, info.base(), "dmp"@));
            &&& action == DumpActionView::Create { dir, file: seq_name(info.base(), n, "dmp"@) }
            &&& 0 <= n <= LAST_SLOT
            &&& n < LAST_SLOT ==> !names.contains(seq_name(info.base(), n, "dmp"@))
        }),
{
    let base = info.base();
    let n = free_slot(occupied(names, base, "dmp"@));
    lemma_free_slot(occupied(names, base, "dmp"@));
    if n < LAST_SLOT && names.contains(seq_name(base, n, "dmp"@)) {
        let i = choose|i: int| 0 <= i < names.len() && names[i] == seq_name(base, n, "dmp"@);
        lemma_seq_name_slot(base, n, "dmp"@);
        assert(slot_of(names[i], base, "dmp"@) == Some(n));
        assert(occupied(names, base, "dmp"@).contains(n));
    }
}

} // verus!
