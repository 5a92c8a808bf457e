//! The field registry: the one place that knows what each field name means.
//!
//! The detail tree formats labels from it and the display filter type-checks
//! against it.

use vstd::prelude::*;

use vstd::string::*;
use vstd::utf8::*;

use crate::bytes;
use crate::dissect::node::{
    hex2, picks, subtree_end_from, value_display, NodeRef, Row, Value, ValueView,
};
use crate::dissect::tables::{
    abbrev_at, code_at, field_entry, table, table_at, table_view, title_at, ALIASES, BOOL, BYTES,
    ENUM_DEC, ENUM_HEX, FIELD_COUNT, GROUP, IPV4, IPV6, LAYER_TEMPLATES, MAC, PROTOCOL, SIGNED, STR,
    UNSIGNED_DEC, UNSIGNED_HEX, UNSIGNED_HEXDEC,
};
use crate::text;
use crate::text::{dec, hex_pad};

verus! {

/// The position of `abbrev` in the field table, from row `i` on.
pub open spec fn index_from(abbrev: Seq<char>, i: int) -> Option<int>
    decreases FIELD_COUNT - i,
{
    if i < 0 || i >= FIELD_COUNT {
        None
    } else if abbrev_at(i) == abbrev {
        Some(i)
    } else {
        index_from(abbrev, i + 1)
    }
}

/// The position of `abbrev` in the field table.
pub open spec fn index_of(abbrev: Seq<char>) -> Option<int> {
    index_from(abbrev, 0)
}

/// The position of `abbrev` in `names`, from `i` on.
pub open spec fn position_from(names: Seq<Seq<char>>, abbrev: Seq<char>, i: int) -> Option<int>
    decreases names.len() - i,
{
    if i < 0 || i >= names.len() {
        None
    } else if names[i] == abbrev {
        Some(i)
    } else {
        position_from(names, abbrev, i + 1)
    }
}

/// The id of `abbrev`: its row in the field table, or its place behind it
/// among `names`.
pub open spec fn id_of(names: Seq<Seq<char>>, abbrev: Seq<char>) -> Option<int> {
    match index_of(abbrev) {
        Some(i) => Some(i),
        None => match position_from(names, abbrev, 0) {
            Some(k) => Some(FIELD_COUNT + k),
            None => None,
        },
    }
}

/// The name with id `id`.
pub open spec fn name_of(names: Seq<Seq<char>>, id: int) -> Seq<char> {
    if id < FIELD_COUNT {
        abbrev_at(id)
    } else if id - FIELD_COUNT < names.len() {
        names[id - FIELD_COUNT]
    } else {
        "?"@
    }
}

/// A numeric id as it is stored: ids beyond what sixteen bits hold share the
/// last one.
pub open spec fn capped(id: int) -> int {
    if id < 0xffff {
        id
    } else {
        0xffff
    }
}

/// Names that are all different and not in the field table.
pub open spec fn unlisted(names: Seq<Seq<char>>) -> bool {
    &&& forall|i: int| 0 <= i < names.len() ==> index_of(#[trigger] names[i]) is None
    &&& forall|i: int, j: int|
        0 <= i < j < names.len() ==> #[trigger] names[i] != #[trigger] names[j]
}

/// Names met at run time that are not in the field table. Every dissector
/// only writes registered fields; this keeps any other name addressable
/// rather than silently renaming it.
#[derive(Debug, PartialEq, Eq)]
pub struct Interner {
    names: Vec<&'static str>,
}

impl View for Interner {
    type V = Seq<Seq<char>>;

    closed spec fn view(&self) -> Seq<Seq<char>> {
        self.names@.map_values(|s: &'static str| s@)
    }
}

impl Interner {
    /// Each name is met once, and none is registered.
    #[verifier::type_invariant]
    spec fn inv(self) -> bool {
        unlisted(self@)
    }

    /// No names beyond the registered ones.
    pub fn new() -> (r: Interner)
        ensures
            r@ == Seq::<Seq<char>>::empty(),
    {
        let names: Vec<&'static str> = Vec::new();
        assert(names@.map_values(|s: &'static str| s@) =~= Seq::empty());
        Interner { names }
    }

    /// A copy of these names.
    pub fn copied(&self) -> (r: Interner)
        ensures
            r@ == self@,
    {
        proof {
            use_type_invariant(self);
        }
        let mut names: Vec<&'static str> = Vec::new();
        let mut i: usize = 0;
        while i < self.names.len()
            invariant
                i <= self.names.len(),
                names@ == self.names@.take(i as int),
            decreases self.names.len() - i,
        {
            names.push(self.names[i]);
            i += 1;
            assert(names@ =~= self.names@.take(i as int));
        }
        assert(names@ =~= self.names@);
        Interner { names }
    }
}

impl Clone for Interner {
    fn clone(&self) -> (r: Interner)
        ensures
            r@ == self@,
    {
        self.copied()
    }
}

/// The row of `abbrev` in the field table.
fn table_row(abbrev: &str) -> (r: Option<usize>)
    ensures
        match r {
            Some(i) => index_of(abbrev@) == Some(i as int),
            None => index_of(abbrev@) is None,
        },
{
    let mut i: usize = 0;
    while i < FIELD_COUNT
        invariant
            i <= FIELD_COUNT,
            index_of(abbrev@) == index_from(abbrev@, i as int),
        decreases FIELD_COUNT - i,
    {
        if text::same(field_entry(i).0, abbrev) {
            return Some(i);
        }
        i += 1;
    }
    None
}

proof fn lemma_index_in_table(abbrev: Seq<char>, i: int)
    ensures
        index_from(abbrev, i) matches Some(k) ==> i <= k < FIELD_COUNT && abbrev_at(k) == abbrev,
    decreases FIELD_COUNT - i,
{
    if 0 <= i < FIELD_COUNT && abbrev_at(i) != abbrev {
        lemma_index_in_table(abbrev, i + 1);
    }
}

/// The row found for a name is a row of the table and carries that name.
pub proof fn index_of_is_a_row(abbrev: Seq<char>)
    ensures
        index_of(abbrev) matches Some(k) ==> 0 <= k < FIELD_COUNT && abbrev_at(k) == abbrev,
{
    lemma_index_in_table(abbrev, 0);
}

proof fn lemma_position(names: Seq<Seq<char>>, abbrev: Seq<char>, i: int)
    ensures
        position_from(names, abbrev, i) matches Some(k) ==> i <= k < names.len() && names[k]
            == abbrev,
    decreases names.len() - i,
{
    if 0 <= i < names.len() && names[i] != abbrev {
        lemma_position(names, abbrev, i + 1);
    }
}

/// The id of a known name lies in the table or among the names behind it.
pub proof fn id_is_known(names: Seq<Seq<char>>, abbrev: Seq<char>)
    ensures
        id_of(names, abbrev) matches Some(i) ==> 0 <= i < FIELD_COUNT + names.len() && (i
            < FIELD_COUNT <==> index_of(abbrev) is Some),
{
    index_of_is_a_row(abbrev);
    lemma_position(names, abbrev, 0);
}

proof fn lemma_first_position(names: Seq<Seq<char>>, i: int, k: int)
    requires
        unlisted(names),
        0 <= i <= k < names.len(),
    ensures
        position_from(names, names[k], i) == Some(k),
    decreases k - i,
{
    if i < k {
        lemma_first_position(names, i + 1, k);
    }
}

proof fn lemma_position_pushed(
    names: Seq<Seq<char>>,
    added: Seq<char>,
    abbrev: Seq<char>,
    i: int,
)
    requires
        0 <= i <= names.len(),
    ensures
        position_from(names.push(added), abbrev, i) == match position_from(names, abbrev, i) {
            Some(k) => Some(k),
            None => if abbrev == added {
                Some(names.len() as int)
            } else {
                None
            },
        },
    decreases names.len() - i,
{
    if i < names.len() {
        assert(names.push(added)[i] == names[i]);
        lemma_position_pushed(names, added, abbrev, i + 1);
    } else {
        assert(position_from(names.push(added), abbrev, i + 1) is None);
    }
}

/// Ids are stable: a name that is added later changes no id given before it.
pub proof fn ids_are_stable(names: Seq<Seq<char>>, added: Seq<char>, abbrev: Seq<char>)
    requires
        id_of(names, abbrev) is Some,
    ensures
        id_of(names.push(added), abbrev) == id_of(names, abbrev),
{
    lemma_position_pushed(names, added, abbrev, 0);
}

/// A stored id names one field: whatever name it was given for, the name it
/// shows has that id.
pub proof fn stored_ids_name_a_field(names: Seq<Seq<char>>, abbrev: Seq<char>)
    requires
        unlisted(names),
        id_of(names, abbrev) is Some,
    ensures
        ({
            let id = capped(id_of(names, abbrev)->Some_0);
            &&& 0 <= id < FIELD_COUNT + names.len()
            &&& id_of(names, name_of(names, id)) == Some(id)
            &&& id_of(names, abbrev)->Some_0 <= 0xffff ==> name_of(names, id) == abbrev
        }),
{
    index_of_is_a_row(abbrev);
    lemma_position(names, abbrev, 0);
    if id_of(names, abbrev)->Some_0 > 0xffff {
        let k = 0xffff - FIELD_COUNT;
        assert(names[k] == name_of(names, 0xffff));
        lemma_first_position(names, 0, k);
    }
}

/// The id of a field name, giving it one if it has none.
pub fn field_id(names: &mut Interner, abbrev: &'static str) -> (id: u16)
    ensures
        match id_of(old(names)@, abbrev@) {
            Some(i) => id == capped(i) && final(names)@ == old(names)@,
            None => id == capped(FIELD_COUNT + old(names)@.len()) && final(names)@ == old(
                names,
            )@.push(abbrev@),
        },
        unlisted(old(names)@),
        unlisted(final(names)@),
        id_of(final(names)@, abbrev@) is Some,
        id == capped(id_of(final(names)@, abbrev@)->Some_0),
        FIELD_COUNT + final(names)@.len() <= 0x1_0000 ==> name_of(final(names)@, id as int)
            == abbrev@,
{
    proof {
        use_type_invariant(&*names);
        index_of_is_a_row(abbrev@);
        lemma_position(names@, abbrev@, 0);
    }
    match known(names, abbrev) {
        Some(id) => id,
        None => {
            let k: usize = names.names.len();
            let ghost before = names@;
            let mut list: Vec<&'static str> = Vec::new();
            proof {
                assert(list@.map_values(|s: &'static str| s@) =~= Seq::empty());
            }
            std::mem::swap(&mut list, &mut names.names);
            list.push(abbrev);
            proof {
                let after = list@.map_values(|s: &'static str| s@);
                assert(after =~= before.push(abbrev@));
                lemma_position_pushed(before, abbrev@, abbrev@, 0);
                assert forall|i: int, j: int| 0 <= i < j < after.len() implies #[trigger] after[i]
                    != #[trigger] after[j] by {
                    if j == k && after[i] == abbrev@ {
                        lemma_first_position(before, 0, i);
                    }
                }
            }
            names.names = list;
            if k < 0xffff - FIELD_COUNT {
                (FIELD_COUNT + k) as u16
            } else {
                0xffff
            }
        },
    }
}

fn known(names: &Interner, abbrev: &str) -> (r: Option<u16>)
    ensures
        match r {
            Some(id) => id_of(names@, abbrev@) is Some && id == capped(
                id_of(names@, abbrev@)->Some_0,
            ),
            None => id_of(names@, abbrev@) is None,
        },
{
    match table_row(abbrev) {
        Some(i) => {
            proof {
                index_of_is_a_row(abbrev@);
            }
            Some(i as u16)
        },
        None => {
            let mut i: usize = 0;
            while i < names.names.len()
                invariant
                    i <= names.names.len(),
                    index_of(abbrev@) is None,
                    position_from(names@, abbrev@, 0) == position_from(names@, abbrev@, i as int),
                    names@.len() == names.names@.len(),
                decreases names.names.len() - i,
            {
                assert(names@[i as int] == names.names@[i as int]@);
                if text::same(names.names[i], abbrev) {
                    return if i < 0xffff - FIELD_COUNT {
                        Some((FIELD_COUNT + i) as u16)
                    } else {
                        Some(0xffff)
                    };
                }
                i += 1;
            }
            None
        },
    }
}

/// Id for a name only if it is registered or already interned.
pub fn field_id_if_known(names: &Interner, abbrev: &str) -> (r: Option<u16>)
    ensures
        match r {
            Some(id) => id_of(names@, abbrev@) is Some && id == capped(
                id_of(names@, abbrev@)->Some_0,
            ),
            None => id_of(names@, abbrev@) is None,
        },
{
    known(names, abbrev)
}

/// The name with id `id`.
pub fn field_abbrev(names: &Interner, id: u16) -> (r: &'static str)
    ensures
        r@ == name_of(names@, id as int),
{
    let i: usize = id as usize;
    if i < FIELD_COUNT {
        field_entry(i).0
    } else if i - FIELD_COUNT < names.names.len() {
        names.names[i - FIELD_COUNT]
    } else {
        "?"
    }
}

/// Numeric display base.
#[derive(Debug, Clone, Copy, PartialEq, Eq, Structural)]
pub enum Base {
    Dec,
    Hex,
    /// `0x1f (31)`
    HexDec,
    /// For enumerations: the symbolic name only, with no number.
    Name,
}

/// Value type of a field. Determines both the label format and the operators
/// the filter language allows on it.
#[derive(Debug, Clone, Copy, PartialEq, Eq)]
pub enum Kind {
    /// A top-level protocol layer.
    Protocol,
    /// A subtree container without a value of its own.
    Group,
    Bool,
    Unsigned(Base),
    Signed,
    Str,
    Bytes,
    Ipv4,
    Ipv6,
    Mac,
    /// An unsigned value with symbolic names.
    Enum(&'static [(u64, &'static str)], Base),
}

/// What a kind stands for.
pub enum KindView {
    Protocol,
    Group,
    Bool,
    Unsigned(Base),
    Signed,
    Str,
    Bytes,
    Ipv4,
    Ipv6,
    Mac,
    Enum(Seq<(u64, &'static str)>, Base),
}

impl View for Kind {
    type V = KindView;

    open spec fn view(&self) -> KindView {
        match *self {
            Kind::Protocol => KindView::Protocol,
            Kind::Group => KindView::Group,
            Kind::Bool => KindView::Bool,
            Kind::Unsigned(b) => KindView::Unsigned(b),
            Kind::Signed => KindView::Signed,
            Kind::Str => KindView::Str,
            Kind::Bytes => KindView::Bytes,
            Kind::Ipv4 => KindView::Ipv4,
            Kind::Ipv6 => KindView::Ipv6,
            Kind::Mac => KindView::Mac,
            Kind::Enum(t, b) => KindView::Enum(t@, b),
        }
    }
}

/// The kind with code `code`, using value table `t` if it is an enumeration.
pub open spec fn kind_from(code: u8, t: u8) -> KindView {
    if code == PROTOCOL {
        KindView::Protocol
    } else if code == GROUP {
        KindView::Group
    } else if code == BOOL {
        KindView::Bool
    } else if code == UNSIGNED_DEC {
        KindView::Unsigned(Base::Dec)
    } else if code == UNSIGNED_HEX {
        KindView::Unsigned(Base::Hex)
    } else if code == UNSIGNED_HEXDEC {
        KindView::Unsigned(Base::HexDec)
    } else if code == SIGNED {
        KindView::Signed
    } else if code == STR {
        KindView::Str
    } else if code == BYTES {
        KindView::Bytes
    } else if code == IPV4 {
        KindView::Ipv4
    } else if code == IPV6 {
        KindView::Ipv6
    } else if code == MAC {
        KindView::Mac
    } else if code == ENUM_DEC {
        KindView::Enum(table_view(t), Base::Dec)
    } else if code == ENUM_HEX {
        KindView::Enum(table_view(t), Base::Hex)
    } else {
        KindView::Enum(table_view(t), Base::Name)
    }
}

/// The kind of field `i`.
pub open spec fn kind_at(i: int) -> KindView {
    kind_from(code_at(i), table_at(i))
}

/// The kind of the field called `abbrev`.
pub open spec fn kind_of(abbrev: Seq<char>) -> Option<KindView> {
    match index_of(abbrev) {
        Some(i) => Some(kind_at(i)),
        None => None,
    }
}

fn decode_kind(code: u8, t: u8) -> (r: Kind)
    ensures
        r@ == kind_from(code, t),
{
    if code == PROTOCOL {
        Kind::Protocol
    } else if code == GROUP {
        Kind::Group
    } else if code == BOOL {
        Kind::Bool
    } else if code == UNSIGNED_DEC {
        Kind::Unsigned(Base::Dec)
    } else if code == UNSIGNED_HEX {
        Kind::Unsigned(Base::Hex)
    } else if code == UNSIGNED_HEXDEC {
        Kind::Unsigned(Base::HexDec)
    } else if code == SIGNED {
        Kind::Signed
    } else if code == STR {
        Kind::Str
    } else if code == BYTES {
        Kind::Bytes
    } else if code == IPV4 {
        Kind::Ipv4
    } else if code == IPV6 {
        Kind::Ipv6
    } else if code == MAC {
        Kind::Mac
    } else if code == ENUM_DEC {
        Kind::Enum(table(t), Base::Dec)
    } else if code == ENUM_HEX {
        Kind::Enum(table(t), Base::Hex)
    } else {
        Kind::Enum(table(t), Base::Name)
    }
}

/// The alias row of `abbrev`, from row `i` on.
pub open spec fn alias_from(abbrev: Seq<char>, i: int) -> Option<int>
    decreases ALIASES@.len() - i,
{
    if i < 0 || i >= ALIASES@.len() {
        None
    } else if ALIASES@[i].0@ == abbrev {
        Some(i)
    } else {
        alias_from(abbrev, i + 1)
    }
}

/// The fields `abbrev` stands for in a display filter: none unless it is an
/// alias.
pub open spec fn members_of(abbrev: Seq<char>) -> Seq<Seq<char>> {
    match alias_from(abbrev, 0) {
        Some(i) => seq![ALIASES@[i].1@, ALIASES@[i].2@],
        None => Seq::empty(),
    }
}

/// One registered field.
#[derive(Debug, Clone, PartialEq, Eq)]
pub struct FieldDef {
    pub abbrev: &'static str,
    pub name: &'static str,
    pub kind: Kind,
    /// Fields this one stands for in a display filter. `ip.addr` matches
    /// either `ip.src` or `ip.dst`; the field itself is never emitted as a
    /// tree row.
    pub members: Vec<&'static str>,
}

/// The characters of each name.
pub open spec fn name_views(v: Seq<&'static str>) -> Seq<Seq<char>> {
    v.map_values(|s: &'static str| s@)
}

impl FieldDef {
    /// This is field `i` of the table.
    pub open spec fn is_field(self, i: int) -> bool {
        &&& 0 <= i < FIELD_COUNT
        &&& self.abbrev@ == abbrev_at(i)
        &&& self.name@ == title_at(i)
        &&& self.kind@ == kind_at(i)
        &&& name_views(self.members@) == members_of(abbrev_at(i))
    }
}

fn members(abbrev: &str) -> (r: Vec<&'static str>)
    ensures
        name_views(r@) == members_of(abbrev@),
{
    let mut out: Vec<&'static str> = Vec::new();
    let mut i: usize = 0;
    while i < ALIASES.len()
        invariant
            i <= ALIASES@.len(),
            out@.len() == 0,
            alias_from(abbrev@, 0) == alias_from(abbrev@, i as int),
        decreases ALIASES@.len() - i,
    {
        if text::same(ALIASES[i].0, abbrev) {
            out.push(ALIASES[i].1);
            out.push(ALIASES[i].2);
            assert(name_views(out@) =~= members_of(abbrev@));
            return out;
        }
        i += 1;
    }
    assert(name_views(out@) =~= members_of(abbrev@));
    out
}

/// The field with id `id`.
pub fn field(id: u16) -> (r: Option<FieldDef>)
    ensures
        match r {
            Some(d) => d.is_field(id as int),
            None => id >= FIELD_COUNT,
        },
{
    let i: usize = id as usize;
    if i < FIELD_COUNT {
        let (abbrev, name, code, t) = field_entry(i);
        Some(FieldDef { abbrev, name, kind: decode_kind(code, t), members: members(abbrev) })
    } else {
        None
    }
}

/// The kind of the field called `abbrev`.
pub fn lookup_kind(abbrev: &str) -> (r: Option<Kind>)
    ensures
        match r {
            Some(k) => kind_of(abbrev@) == Some(k@),
            None => kind_of(abbrev@) is None,
        },
{
    match table_row(abbrev) {
        Some(i) => {
            proof {
                index_of_is_a_row(abbrev@);
            }
            let (_, _, code, t) = field_entry(i);
            Some(decode_kind(code, t))
        },
        None => None,
    }
}

/// The field called `abbrev`.
pub fn lookup(abbrev: &str) -> (r: Option<FieldDef>)
    ensures
        match r {
            Some(d) => index_of(abbrev@) is Some && d.is_field(index_of(abbrev@)->Some_0),
            None => index_of(abbrev@) is None,
        },
{
    match table_row(abbrev) {
        Some(i) => {
            proof {
                index_of_is_a_row(abbrev@);
            }
            field(i as u16)
        },
        None => None,
    }
}

/// All field definitions, for completion.
pub fn all() -> (r: Vec<FieldDef>)
    ensures
        r@.len() == FIELD_COUNT,
        forall|i: int| 0 <= i < FIELD_COUNT ==> (#[trigger] r@[i]).is_field(i),
{
    let mut out: Vec<FieldDef> = Vec::new();
    let mut i: usize = 0;
    while i < FIELD_COUNT
        invariant
            i <= FIELD_COUNT,
            out@.len() == i,
            forall|k: int| 0 <= k < i ==> (#[trigger] out@[k]).is_field(k),
        decreases FIELD_COUNT - i,
    {
        let (abbrev, name, code, t) = field_entry(i);
        let d = FieldDef { abbrev, name, kind: decode_kind(code, t), members: members(abbrev) };
        assert(d.is_field(i as int));
        out.push(d);
        i += 1;
    }
    out
}

/// The name `t` gives `v`, looking from row `i` on.
pub open spec fn named_from(t: Seq<(u64, &'static str)>, v: u64, i: int) -> Option<Seq<char>>
    decreases t.len() - i,
{
    if i < 0 || i >= t.len() {
        None
    } else if t[i].0 == v {
        Some(t[i].1@)
    } else {
        named_from(t, v, i + 1)
    }
}

/// The name `t` gives `v`.
pub open spec fn named(t: Seq<(u64, &'static str)>, v: u64) -> Option<Seq<char>> {
    named_from(t, v, 0)
}

/// The name `t` gives `v`, or `other`.
pub open spec fn named_or(t: Seq<(u64, &'static str)>, v: u64, other: Seq<char>) -> Seq<char> {
    match named(t, v) {
        Some(s) => s,
        None => other,
    }
}

/// Symbolic name for `value` in `table`.
pub fn enum_name(table: &[(u64, &'static str)], value: u64) -> (r: Option<&'static str>)
    ensures
        match r {
            Some(s) => named(table@, value) == Some(s@),
            None => named(table@, value) is None,
        },
{
    let mut i: usize = 0;
    while i < table.len()
        invariant
            i <= table.len(),
            named(table@, value) == named_from(table@, value, i as int),
        decreases table.len() - i,
    {
        if table[i].0 == value {
            return Some(table[i].1);
        }
        i += 1;
    }
    None
}

/// Symbolic name for `value` in `table`, or `other`.
pub fn enum_name_or(table: &[(u64, &'static str)], value: u64, other: &'static str) -> (r:
    &'static str)
    ensures
        r@ == named_or(table@, value, other@),
{
    match enum_name(table, value) {
        Some(s) => s,
        None => other,
    }
}

// ---- nearest name ---------------------------------------------------------------

/// The smallest of three.
pub open spec fn least3(a: int, b: int, c: int) -> int {
    if a <= b && a <= c {
        a
    } else if b <= c {
        b
    } else {
        c
    }
}

/// Levenshtein distance between the first `i` bytes of `a` and the first `j`
/// of `b`.
pub open spec fn distance(a: Seq<u8>, b: Seq<u8>, i: int, j: int) -> int
    decreases i, j,
{
    if i <= 0 {
        j
    } else if j <= 0 {
        i
    } else {
        least3(
            distance(a, b, i - 1, j - 1) + if a[i - 1] != b[j - 1] {
                1int
            } else {
                0
            },
            distance(a, b, i - 1, j) + 1,
            distance(a, b, i, j - 1) + 1,
        )
    }
}

/// Levenshtein distance.
pub open spec fn edits(a: Seq<u8>, b: Seq<u8>) -> int {
    distance(a, b, a.len() as int, b.len() as int)
}

/// Prefixes are at least as far apart as their lengths, and no further than
/// their lengths together.
proof fn lemma_distance_bounds(a: Seq<u8>, b: Seq<u8>, i: int, j: int)
    requires
        0 <= i,
        0 <= j,
    ensures
        distance(a, b, i, j) >= i - j,
        distance(a, b, i, j) >= j - i,
        0 <= distance(a, b, i, j) <= i + j,
    decreases i, j,
{
    if i > 0 && j > 0 {
        lemma_distance_bounds(a, b, i - 1, j - 1);
        lemma_distance_bounds(a, b, i - 1, j);
        lemma_distance_bounds(a, b, i, j - 1);
    }
}

/// Once every prefix of `b` is further than `budget` from a prefix of `a`, it
/// stays so for longer prefixes of `a`.
proof fn lemma_row_only_grows(a: Seq<u8>, b: Seq<u8>, i: int, k: int, j: int, budget: int)
    requires
        0 <= i <= k,
        0 <= j,
        forall|x: int| 0 <= x <= j ==> #[trigger] distance(a, b, i, x) > budget,
    ensures
        distance(a, b, k, j) > budget,
    decreases k, j,
{
    if k > i {
        lemma_row_only_grows(a, b, i, k - 1, j, budget);
        if j > 0 {
            lemma_row_only_grows(a, b, i, k - 1, j - 1, budget);
            lemma_row_only_grows(a, b, i, k, j - 1, budget);
        } else {
            assert(distance(a, b, i, 0) > budget);
        }
    } else {
        assert(distance(a, b, i, j) > budget);
    }
}

/// Levenshtein distance, if it is within `budget`.
pub fn edit_distance(a: &[u8], b: &[u8], budget: usize) -> (r: Option<usize>)
    ensures
        match r {
            Some(d) => d == edits(a@, b@) && d <= budget,
            None => edits(a@, b@) > budget,
        },
{
    let apart: usize = if a.len() > b.len() {
        a.len() - b.len()
    } else {
        b.len() - a.len()
    };
    proof {
        lemma_distance_bounds(a@, b@, a@.len() as int, b@.len() as int);
    }
    if apart > budget {
        return None;
    }
    let mut prev: Vec<u128> = Vec::new();
    prev.push(0);
    let mut j: usize = 0;
    while j < b.len()
        invariant
            j <= b@.len(),
            prev@.len() == j + 1,
            forall|x: int| 0 <= x <= j ==> prev@[x] == distance(a@, b@, 0, x),
        decreases b.len() - j,
    {
        j += 1;
        prev.push(j as u128);
    }
    let mut i: usize = 0;
    while i < a.len()
        invariant
            i <= a.len(),
            a@.len() <= usize::MAX,
            b@.len() <= usize::MAX,
            prev@.len() == b@.len() + 1,
            forall|x: int| 0 <= x <= b@.len() ==> prev@[x] == #[trigger] distance(a@, b@, i as int, x),
        decreases a.len() - i,
    {
        let mut cur: Vec<u128> = Vec::new();
        cur.push((i + 1) as u128);
        let mut row_best: u128 = (i + 1) as u128;
        let mut k: usize = 0;
        while k < b.len()
            invariant
                i < a.len(),
                k <= b.len(),
                a@.len() <= usize::MAX,
            b@.len() <= usize::MAX,
                prev@.len() == b@.len() + 1,
                forall|x: int|
                    0 <= x <= b@.len() ==> prev@[x] == #[trigger] distance(a@, b@, i as int, x),
                cur@.len() == k + 1,
                forall|x: int| 0 <= x <= k ==> cur@[x] == #[trigger] distance(a@, b@, i + 1, x),
                forall|x: int| 0 <= x <= k ==> #[trigger] distance(a@, b@, i + 1, x) >= row_best,
            decreases b.len() - k,
        {
            proof {
                lemma_distance_bounds(a@, b@, i as int, k as int);
                lemma_distance_bounds(a@, b@, i as int, k + 1);
                lemma_distance_bounds(a@, b@, i + 1, k as int);
            }
            assert(prev@[k as int] == distance(a@, b@, i as int, k as int));
            assert(prev@[k + 1] == distance(a@, b@, i as int, k + 1));
            assert(cur@[k as int] == distance(a@, b@, i + 1, k as int));
            let cost: u128 = if a[i] != b[k] {
                1
            } else {
                0
            };
            let x: u128 = prev[k] + cost;
            let y: u128 = prev[k + 1] + 1;
            let z: u128 = cur[k] + 1;
            let best: u128 = if x <= y && x <= z {
                x
            } else if y <= z {
                y
            } else {
                z
            };
            assert(best == distance(a@, b@, i + 1, k + 1));
            cur.push(best);
            if best < row_best {
                row_best = best;
            }
            k += 1;
        }
        if row_best > budget as u128 {
            proof {
                lemma_row_only_grows(
                    a@,
                    b@,
                    i + 1,
                    a@.len() as int,
                    b@.len() as int,
                    budget as int,
                );
            }
            return None;
        }
        prev = cur;
        i += 1;
    }
    let dist: u128 = prev[b.len()];
    assert(dist == distance(a@, b@, i as int, b@.len() as int));
    if dist <= budget as u128 {
        Some(dist as usize)
    } else {
        None
    }
}

/// How far a suggestion may be from `name`: a third of its length, at least
/// one edit and at most four.
pub open spec fn edit_budget(name: Seq<char>) -> int {
    let n = encode_utf8(name).len() / 3;
    if n < 1 {
        1
    } else if n > 4 {
        4
    } else {
        n as int
    }
}

/// How far field `i` is from `name`.
pub open spec fn field_edits(name: Seq<char>, i: int) -> int {
    edits(encode_utf8(name), encode_utf8(abbrev_at(i)))
}

/// Field `i` is the one closest to `name`: the first of those with the fewest
/// edits, within the budget.
pub open spec fn is_closest(name: Seq<char>, i: int) -> bool {
    &&& 0 <= i < FIELD_COUNT
    &&& field_edits(name, i) <= edit_budget(name)
    &&& forall|j: int|
        0 <= j < FIELD_COUNT ==> #[trigger] field_edits(name, j) >= field_edits(name, i)
    &&& forall|j: int| 0 <= j < i ==> #[trigger] field_edits(name, j) > field_edits(name, i)
}

/// The registered field name closest to `name`, if one is close enough.
pub open spec fn nearest(name: Seq<char>) -> Option<Seq<char>> {
    if exists|i: int| is_closest(name, i) {
        Some(abbrev_at(choose|i: int| is_closest(name, i)))
    } else {
        None
    }
}

/// The registered field name closest to `name`, for "did you mean" hints.
/// Uses edit distance capped at a third of the name length, so a typo is
/// suggested but an unrelated name is not.
pub fn closest(name: &str) -> (r: Option<&'static str>)
    ensures
        match r {
            Some(s) => nearest(name@) == Some(s@),
            None => nearest(name@) is None,
        },
{
    let bytes: &[u8] = name.as_bytes();
    let third: usize = bytes.len() / 3;
    let budget: usize = if third < 1 {
        1
    } else if third > 4 {
        4
    } else {
        third
    };
    let mut best: Option<(usize, usize)> = None;
    let mut i: usize = 0;
    while i < FIELD_COUNT
        invariant
            i <= FIELD_COUNT,
            bytes@ == encode_utf8(name@),
            budget == edit_budget(name@),
            match best {
                Some((d, b)) => {
                    &&& b < i
                    &&& d == field_edits(name@, b as int)
                    &&& d <= budget
                    &&& forall|j: int| 0 <= j < i ==> #[trigger] field_edits(name@, j) >= d
                    &&& forall|j: int| 0 <= j < b ==> #[trigger] field_edits(name@, j) > d
                },
                None => forall|j: int| 0 <= j < i ==> #[trigger] field_edits(name@, j) > budget,
            },
        decreases FIELD_COUNT - i,
    {
        let (abbrev, _, _, _) = field_entry(i);
        let other: &[u8] = abbrev.as_bytes();
        if let Some(d) = edit_distance(bytes, other, budget) {
            let better: bool = match best {
                Some((b, _)) => d < b,
                None => true,
            };
            if better {
                best = Some((d, i));
            }
        }
        i += 1;
    }
    match best {
        Some((_, b)) => {
            proof {
                assert(is_closest(name@, b as int));
                let c = choose|i: int| is_closest(name@, i);
                assert(is_closest(name@, c));
                assert(c == b) by {
                    assert(field_edits(name@, c) >= field_edits(name@, b as int));
                    assert(field_edits(name@, b as int) >= field_edits(name@, c));
                }
            }
            Some(field_entry(b).0)
        },
        None => None,
    }
}

// ---- labels ----------------------------------------------------------------------

/// The bytes in hexadecimal.
pub open spec fn hex_digits(b: Seq<u8>) -> Seq<char>
    decreases b.len(),
{
    if b.len() == 0 {
        Seq::empty()
    } else {
        hex_digits(b.drop_last()) + hex2(b.last())
    }
}

/// At most this many bytes of a value are shown.
pub const SHOWN_BYTES: usize = 48;

/// The bytes in hexadecimal, with an ellipsis where there are more than fit.
pub open spec fn hex_shown(b: Seq<u8>) -> Seq<char> {
    if b.len() > SHOWN_BYTES {
        hex_digits(b.take(SHOWN_BYTES as int)).push('\u{2026}')
    } else {
        hex_digits(b)
    }
}

fn hex_of(b: &[u8]) -> (r: String)
    ensures
        r@ == hex_shown(b@),
{
    let mut s: String = String::new();
    let shown: usize = if b.len() > SHOWN_BYTES {
        SHOWN_BYTES
    } else {
        b.len()
    };
    let mut i: usize = 0;
    while i < shown
        invariant
            i <= shown <= b@.len(),
            s@ == hex_digits(b@.take(i as int)),
        decreases shown - i,
    {
        s.push(text::digit_char(b[i] / 16));
        s.push(text::digit_char(b[i] % 16));
        i += 1;
        assert(b@.take(i as int).drop_last() =~= b@.take(i - 1));
        assert(s@ =~= hex_digits(b@.take(i as int)));
    }
    assert(b@.take(b@.len() as int) =~= b@);
    if b.len() > SHOWN_BYTES {
        s.push('\u{2026}');
    }
    s
}

/// A number in `base`, as wide as a field of `width` bytes.
pub open spec fn unsigned_text(v: u64, base: Base, width: int) -> Seq<char> {
    let w = if width < 1 {
        2
    } else if width > 8 {
        16
    } else {
        width * 2
    };
    match base {
        Base::Dec | Base::Name => dec(v as int),
        Base::Hex => "0x"@ + hex_pad(v as int, w),
        Base::HexDec => "0x"@ + hex_pad(v as int, w) + " ("@ + dec(v as int) + ")"@,
    }
}

fn format_unsigned(v: u64, base: Base, width_bytes: usize) -> (r: String)
    ensures
        r@ == unsigned_text(v, base, width_bytes as int),
{
    let w: usize = if width_bytes < 1 {
        2
    } else if width_bytes > 8 {
        16
    } else {
        width_bytes * 2
    };
    match base {
        Base::Dec => text::dec_text(v),
        Base::Name => text::dec_text(v),
        Base::Hex => {
            let mut s: String = text::owned("0x");
            text::push_hex(&mut s, v, w);
            s
        },
        Base::HexDec => {
            let mut s: String = text::owned("0x");
            text::push_hex(&mut s, v, w);
            s.push_str(" (");
            text::push_dec(&mut s, v);
            s.push_str(")");
            s
        },
    }
}

/// The bytes a row covers, or nothing where they run past the data.
pub open spec fn row_data(r: Row, data: Seq<u8>) -> Seq<u8> {
    if r.end <= data.len() {
        data.subrange(r.start, r.end)
    } else {
        Seq::empty()
    }
}

/// The value part of a label.
pub open spec fn value_label(r: Row, data: Seq<u8>) -> Seq<char> {
    match (kind_of(r.abbrev), r.value) {
        (Some(KindView::Bool), ValueView::Bool(b)) => if b {
            "Set"@
        } else {
            "Not set"@
        },
        (Some(KindView::Unsigned(base)), ValueView::Unsigned(v)) => unsigned_text(
            v,
            base,
            r.end - r.start,
        ),
        (Some(KindView::Enum(t, Base::Name)), ValueView::Unsigned(v)) => named_or(
            t,
            v,
            "Unknown"@,
        ),
        (Some(KindView::Enum(t, base)), ValueView::Unsigned(v)) => named_or(t, v, "Unknown"@)
            + " ("@ + unsigned_text(v, base, r.end - r.start) + ")"@,
        (_, ValueView::Bytes) => hex_shown(row_data(r, data)),
        (_, v) => value_display(v),
    }
}

/// Just the value part of a label (no field name).
pub fn value_text(node: &NodeRef<'_>, data: &[u8]) -> (r: String)
    ensures
        r@ == value_label(node.row(), data@),
{
    let kind = lookup_kind(node.abbrev());
    let value = node.value();
    let range = node.range();
    match (kind, &value) {
        (Some(Kind::Bool), Value::Bool(b)) => {
            if *b {
                text::owned("Set")
            } else {
                text::owned("Not set")
            }
        },
        (Some(Kind::Unsigned(base)), Value::Unsigned(v)) => {
            format_unsigned(*v, base, range.end - range.start)
        },
        (Some(Kind::Enum(t, base)), Value::Unsigned(v)) => {
            let sym = enum_name_or(t, *v, "Unknown");
            match base {
                Base::Name => text::owned(sym),
                _ => {
                    let mut s: String = text::cat(sym, " (");
                    s.push_str(&format_unsigned(*v, base, range.end - range.start));
                    s.push_str(")");
                    s
                },
            }
        },
        (_, Value::Bytes) => {
            if range.end <= data.len() {
                hex_of(bytes::part(data, range.start, range.end))
            } else {
                let none: &[u8] = &[];
                assert(none@ =~= Seq::<u8>::empty());
                hex_of(none)
            }
        },
        (_, v) => v.text(),
    }
}

/// The first position of `c` in `s` from `i` on, or the length.
pub open spec fn char_index(s: Seq<char>, c: char, i: int) -> int
    decreases s.len() - i,
{
    if i < 0 || i >= s.len() || s[i] == c {
        i
    } else {
        char_index(s, c, i + 1)
    }
}

proof fn lemma_char_index(s: Seq<char>, c: char, i: int)
    requires
        0 <= i <= s.len(),
    ensures
        i <= char_index(s, c, i) <= s.len(),
        char_index(s, c, i) < s.len() ==> s[char_index(s, c, i)] == c,
    decreases s.len() - i,
{
    if i < s.len() && s[i] != c {
        lemma_char_index(s, c, i + 1);
    }
}

/// The position of the first direct child of row `at` whose field is `key`.
pub open spec fn child_at(rows: Seq<Row>, at: int, key: Seq<char>) -> Option<int> {
    let hi = subtree_end_from(rows, rows[at].depth, at + 1);
    let d = rows[at].depth + 1;
    let hits = picks(rows, at + 1, hi, |x: Row| x.depth == d && x.abbrev == key);
    if hits.len() > 0 {
        Some(hits[0])
    } else {
        None
    }
}

/// What `{key}` becomes in the label of row `at`.
pub open spec fn slot_text(rows: Seq<Row>, at: int, key: Seq<char>, data: Seq<u8>) -> Seq<char> {
    match child_at(rows, at, key) {
        None => "?"@,
        Some(c) => match (kind_of(rows[c].abbrev), rows[c].value) {
            (Some(KindView::Enum(t, _)), ValueView::Unsigned(v)) => named_or(t, v, "unknown"@),
            _ => value_label(rows[c], data),
        },
    }
}

/// `template` with each `{field}` replaced by that child of row `at`.
pub open spec fn rendered(
    template: Seq<char>,
    rows: Seq<Row>,
    at: int,
    data: Seq<u8>,
) -> Seq<char>
    decreases template.len(),
{
    let open = char_index(template, '{', 0);
    let close = char_index(template, '}', open);
    if open >= template.len() || close >= template.len() || open < 0 || close <= open {
        template
    } else {
        template.take(open) + slot_text(rows, at, template.subrange(open + 1, close), data)
            + rendered(template.skip(close + 1), rows, at, data)
    }
}

fn find_char(s: &[char], c: char, from: usize) -> (r: usize)
    requires
        from <= s@.len(),
    ensures
        r == char_index(s@, c, from as int),
        from <= r <= s@.len(),
        r < s@.len() ==> s@[r as int] == c,
{
    let mut i: usize = from;
    while i < s.len() && s[i] != c
        invariant
            from <= i <= s@.len(),
            char_index(s@, c, from as int) == char_index(s@, c, i as int),
        decreases s.len() - i,
    {
        i += 1;
    }
    i
}

fn slot(node: &NodeRef<'_>, key: &str, data: &[u8]) -> (r: String)
    requires
        0 <= node.at() < node.rows().len(),
    ensures
        r@ == slot_text(node.rows(), node.at(), key@, data@),
{
    match node.child(key) {
        None => text::owned("?"),
        Some(child) => {
            let kind = lookup_kind(child.abbrev());
            match (kind, child.value()) {
                (Some(Kind::Enum(t, _)), Value::Unsigned(v)) => text::owned(
                    enum_name_or(t, v, "unknown"),
                ),
                _ => value_text(&child, data),
            }
        },
    }
}

fn render_template(template: &[char], node: &NodeRef<'_>, data: &[u8]) -> (r: String)
    requires
        0 <= node.at() < node.rows().len(),
    ensures
        r@ == rendered(template@, node.rows(), node.at(), data@),
    decreases template@.len(),
{
    let open: usize = find_char(template, '{', 0);
    let close: usize = find_char(template, '}', open);
    if open >= template.len() || close >= template.len() {
        return text::from_chars(template);
    }
    let mut out: String = text::from_chars(vstd::slice::slice_subrange(template, 0, open));
    assert(template@.subrange(0, open as int) =~= template@.take(open as int));
    let key: String = text::from_chars(vstd::slice::slice_subrange(template, open + 1, close));
    out.push_str(&slot(node, &key, data));
    let rest = vstd::slice::slice_subrange(template, close + 1, template.len());
    assert(rest@ =~= template@.skip(close + 1));
    out.push_str(&render_template(rest, node, data));
    out
}

/// The label template of `abbrev`, from row `i` on.
pub open spec fn template_from(abbrev: Seq<char>, i: int) -> Option<Seq<char>>
    decreases LAYER_TEMPLATES@.len() - i,
{
    if i < 0 || i >= LAYER_TEMPLATES@.len() {
        None
    } else if LAYER_TEMPLATES@[i].0@ == abbrev {
        Some(LAYER_TEMPLATES@[i].1@)
    } else {
        template_from(abbrev, i + 1)
    }
}

fn template_of(abbrev: &str) -> (r: Option<&'static str>)
    ensures
        match r {
            Some(t) => template_from(abbrev@, 0) == Some(t@),
            None => template_from(abbrev@, 0) is None,
        },
{
    let mut i: usize = 0;
    while i < LAYER_TEMPLATES.len()
        invariant
            i <= LAYER_TEMPLATES@.len(),
            template_from(abbrev@, 0) == template_from(abbrev@, i as int),
        decreases LAYER_TEMPLATES@.len() - i,
    {
        if text::same(LAYER_TEMPLATES[i].0, abbrev) {
            return Some(LAYER_TEMPLATES[i].1);
        }
        i += 1;
    }
    None
}

/// The display label of row `at`.
pub open spec fn label_of(rows: Seq<Row>, at: int, data: Seq<u8>) -> Seq<char> {
    let r = rows[at];
    match r.text {
        Some(t) => t,
        None => match index_of(r.abbrev) {
            None => match r.value {
                ValueView::Empty | ValueView::Bytes => r.abbrev,
                v => r.abbrev + ": "@ + value_display(v),
            },
            Some(i) => match kind_at(i) {
                KindView::Protocol | KindView::Group => match template_from(r.abbrev, 0) {
                    Some(t) => rendered(t, rows, at, data),
                    None => title_at(i),
                },
                _ => if value_label(r, data).len() == 0 {
                    title_at(i)
                } else {
                    title_at(i) + ": "@ + value_label(r, data)
                },
            },
        },
    }
}

/// The display label for `node`. `data` is the bytes of the node's data
/// source, used only for byte fields.
pub fn label(node: &NodeRef<'_>, data: &[u8]) -> (r: String)
    ensures
        r@ == label_of(node.rows(), node.at(), data@),
{
    let _at: usize = node.index();
    match node.text() {
        Some(t) => {
            return text::owned(t);
        },
        None => {},
    }
    let abbrev = node.abbrev();
    match table_row(abbrev) {
        None => match node.value() {
            Value::Empty => text::owned(abbrev),
            Value::Bytes => text::owned(abbrev),
            v => {
                let mut s: String = text::cat(abbrev, ": ");
                s.push_str(&v.text());
                s
            },
        },
        Some(i) => {
            proof {
                index_of_is_a_row(abbrev@);
            }
            let (_, name, code, t) = field_entry(i);
            match decode_kind(code, t) {
                Kind::Protocol | Kind::Group => match template_of(abbrev) {
                    Some(tpl) => render_template(&text::chars_of(tpl), node, data),
                    None => text::owned(name),
                },
                _ => {
                    let v: String = value_text(node, data);
                    if v.as_str().is_empty() {
                        text::owned(name)
                    } else {
                        let mut s: String = text::cat(name, ": ");
                        s.push_str(&v);
                        s
                    }
                },
            }
        },
    }
}

/// A running FNV-1a hash.
#[derive(Debug, Clone, Copy, PartialEq, Eq)]
pub struct FnvHasher(u64);

/// FNV-1a over `b`, continuing from `h`.
pub open spec fn fnv(h: u64, b: Seq<u8>) -> u64
    decreases b.len(),
{
    if b.len() == 0 {
        h
    } else {
        (fnv(h, b.drop_last()) ^ (b.last() as u64)).wrapping_mul(0x100000001b3)
    }
}

impl FnvHasher {
    /// The hash so far; zero before anything was written.
    pub closed spec fn state(self) -> u64 {
        self.0
    }

    pub fn new() -> (r: FnvHasher)
        ensures
            r.state() == 0,
    {
        FnvHasher(0)
    }

    pub fn finish(&self) -> (r: u64)
        ensures
            r == self.state(),
    {
        self.0
    }

    /// Continue the hash over `bytes`.
    pub fn write(&mut self, bytes: &[u8])
        ensures
            final(self).state() == fnv(
                if old(self).state() == 0 {
                    0xcbf29ce484222325
                } else {
                    old(self).state()
                },
                bytes@,
            ),
    {
        let first: u64 = if self.0 == 0 {
            0xcbf29ce484222325
        } else {
            self.0
        };
        let mut h: u64 = first;
        let mut i: usize = 0;
        while i < bytes.len()
            invariant
                i <= bytes@.len(),
                h == fnv(first, bytes@.take(i as int)),
            decreases bytes.len() - i,
        {
            h = (h ^ bytes[i] as u64).wrapping_mul(0x100000001b3);
            i += 1;
            assert(bytes@.take(i as int).drop_last() =~= bytes@.take(i - 1));
        }
        assert(bytes@.take(bytes@.len() as int) =~= bytes@);
        self.0 = h;
    }
}

} // verus!
