use super::entry::{sheet_value, BuildRules, LeafEntry, LeafEntryView};
use super::errors::{LayoutError, LayoutErrorView};
use super::header::{CrcLocation, Header};
use super::settings::{Endianness, Settings};
use crate::variant::DataSheet;
use vstd::prelude::*;
use vstd::string::StringExecFns;

verus! {

/// What stays the same during the build of one block.
pub struct BuildConfig<'a> {
    pub endianness: &'a Endianness,
    pub padding: u8,
    pub strict: bool,
}

impl<'a> BuildConfig<'a> {
    /// The rules of the build as plain values.
    pub open spec fn rules(self) -> BuildRules {
        BuildRules { endianness: *self.endianness, padding: self.padding, strict: self.strict }
    }
}

/// A group of named entries, kept in the order in which they were inserted;
/// no name occurs twice. It holds an `indexmap::IndexMap`, whose entries are
/// entries of the tree again.
#[verifier::external_body]
#[derive(Debug)]
pub struct Branch {
    map: indexmap::IndexMap<String, Entry>,
}

/// Any entry of a layout: a field, or a group of entries.
#[derive(Debug)]
pub enum Entry {
    Leaf(LeafEntry),
    Branch(Branch),
}

/// The mathematical content of an [`Entry`]: a tree of fields.
pub enum EntryView {
    Leaf(LeafEntryView),
    Branch(Seq<(Seq<char>, EntryView)>),
}

/// The entries of a group with their names, in insertion order.
pub uninterp spec fn branch_entries(branch: Branch) -> Seq<(Seq<char>, EntryView)>;

impl View for Entry {
    type V = EntryView;

    open spec fn view(&self) -> EntryView {
        match self {
            Entry::Leaf(leaf) => EntryView::Leaf(leaf@),
            Entry::Branch(branch) => EntryView::Branch(branch_entries(*branch)),
        }
    }
}

/// `IndexMap::new`: a map without entries.
#[verifier::external_body]
fn map_new() -> (branch: Branch)
    ensures
        branch_entries(branch) == Seq::<(Seq<char>, EntryView)>::empty(),
{
    Branch { map: indexmap::IndexMap::new() }
}

/// `IndexMap::len`: the number of entries.
#[verifier::external_body]
fn map_len(branch: &Branch) -> (n: usize)
    ensures
        n == branch_entries(*branch).len(),
{
    branch.map.len()
}

/// `IndexMap::get_index`: the entry at position `index` of the insertion
/// order, which is there for every position below the length.
#[verifier::external_body]
fn map_get_index(branch: &Branch, index: usize) -> (r: (&String, &Entry))
    requires
        index < branch_entries(*branch).len(),
    ensures
        r.0@ == branch_entries(*branch)[index as int].0,
        r.1@ == branch_entries(*branch)[index as int].1,
{
    branch.map.get_index(index).unwrap()
}

/// `IndexMap::insert`: a name that is there keeps its place and gets the new
/// entry, and the old entry is returned; a new name goes to the end.
#[verifier::external_body]
fn map_insert(branch: &mut Branch, name: String, entry: Entry) -> (old_entry: Option<Entry>)
    ensures
        match old_entry {
            Some(e) => exists|i: int|
                0 <= i < branch_entries(*old(branch)).len() && (#[trigger] branch_entries(
                    *old(branch),
                )[i]) == (name@, e@) && branch_entries(*final(branch)) == branch_entries(
                    *old(branch),
                ).update(i, (name@, entry@)),
            None => {
                &&& forall|i: int|
                    0 <= i < branch_entries(*old(branch)).len() ==> (#[trigger] branch_entries(
                        *old(branch),
                    )[i]).0 != name@
                &&& branch_entries(*final(branch)) == branch_entries(*old(branch)).push(
                    (name@, entry@),
                )
            },
        },
{
    branch.map.insert(name, entry)
}

impl Branch {
    /// The entries of the group with their names, in insertion order.
    pub open spec fn entries(self) -> Seq<(Seq<char>, EntryView)> {
        branch_entries(self)
    }

    /// A group without entries.
    pub fn new() -> (branch: Branch)
        ensures
            branch.entries() == Seq::<(Seq<char>, EntryView)>::empty(),
    {
        map_new()
    }

    /// The number of entries.
    pub fn len(&self) -> (n: usize)
        ensures
            n == self.entries().len(),
    {
        map_len(self)
    }

    /// The name and the entry at position `index` of the insertion order.
    pub fn get_index(&self, index: usize) -> (r: Option<(&String, &Entry)>)
        ensures
            match r {
                Some((name, entry)) => index < self.entries().len() && (name@, entry@)
                    == self.entries()[index as int],
                None => index >= self.entries().len(),
            },
    {
        if index < map_len(self) {
            Some(map_get_index(self, index))
        } else {
            None
        }
    }

    /// Puts `entry` under `name`. A name that is there keeps its place, and
    /// the entry it had is returned; a new name goes to the end.
    pub fn insert(&mut self, name: String, entry: Entry) -> (old_entry: Option<Entry>)
        ensures
            match old_entry {
                Some(e) => exists|i: int|
                    0 <= i < branch_entries(*old(self)).len() && (#[trigger] branch_entries(
                        *old(self),
                    )[i]) == (name@, e@) && branch_entries(*final(self)) == branch_entries(
                        *old(self),
                    ).update(i, (name@, entry@)),
                None => {
                    &&& forall|i: int|
                        0 <= i < branch_entries(*old(self)).len() ==> (#[trigger] branch_entries(
                            *old(self),
                        )[i]).0 != name@
                    &&& branch_entries(*final(self)) == branch_entries(*old(self)).push(
                        (name@, entry@),
                    )
                },
            },
    {
        map_insert(self, name, entry)
    }
}

/// One named, fixed-size region of memory: where it lies and what it holds.
#[derive(Debug)]
pub struct Block {
    pub header: Header,
    pub data: Entry,
}

/// `indexmap::IndexMap`: a map that keeps the order of insertion, taken as
/// it is.
#[verifier::external_type_specification]
#[verifier::external_body]
#[verifier::reject_recursive_types(K)]
#[verifier::reject_recursive_types(V)]
#[verifier::reject_recursive_types(S)]
pub struct ExIndexMap<K, V, S>(indexmap::IndexMap<K, V, S>);

/// The settings of a layout and its blocks by name, in the order in which
/// the layout lists them.
#[derive(Debug)]
pub struct Config {
    pub settings: Settings,
    pub blocks: indexmap::IndexMap<String, Block>,
}

/// The blocks of a layout with their names, in insertion order.
pub uninterp spec fn named_blocks(blocks: indexmap::IndexMap<String, Block>) -> Seq<
    (Seq<char>, Block),
>;

/// The first block at or after position `from` that is called `name`.
pub open spec fn first_named(entries: Seq<(Seq<char>, Block)>, name: Seq<char>, from: int) -> Option<
    Block,
>
    decreases entries.len() - from,
{
    if from < 0 || from >= entries.len() {
        None
    } else if entries[from].0 == name {
        Some(entries[from].1)
    } else {
        first_named(entries, name, from + 1)
    }
}

/// The block behind an optional reference to one.
pub open spec fn block_value(found: Option<&Block>) -> Option<Block> {
    match found {
        Some(block) => Some(*block),
        None => None,
    }
}

/// `IndexMap::get`: the block stored under `name`, if there is one. No name
/// occurs twice, so the block is the first of that name.
#[verifier::external_body]
fn blocks_get<'a>(blocks: &'a indexmap::IndexMap<String, Block>, name: &str) -> (found: Option<
    &'a Block,
>)
    ensures
        block_value(found) == first_named(named_blocks(*blocks), name@, 0),
{
    blocks.get(name)
}

impl Config {
    /// The blocks of the layout with their names, in insertion order.
    pub open spec fn entries(self) -> Seq<(Seq<char>, Block)> {
        named_blocks(self.blocks)
    }

    /// The block of the layout that is called `name`.
    pub open spec fn block_at(self, name: Seq<char>) -> Option<Block> {
        first_named(named_blocks(self.blocks), name, 0)
    }

    /// The block called `name`. A name that the layout does not have is an
    /// error that says so.
    pub fn block(&self, name: &str) -> (r: Result<&Block, LayoutError>)
        ensures
            match r {
                Ok(block) => self.block_at(name@) == Some(*block),
                Err(e) => self.block_at(name@) is None && e@ == LayoutErrorView::BlockNotFound(
                    name@,
                ),
            },
    {
        match blocks_get(&self.blocks, name) {
            Some(block) => Ok(block),
            None => Err(LayoutError::BlockNotFound(String::from_str(name))),
        }
    }
}

/// Buffer and padding count while a block is laid out.
pub struct LayoutState {
    pub buffer: Seq<u8>,
    pub padding: nat,
}

/// The number of bytes that bring `len` up to a multiple of `width`.
pub open spec fn gap(len: nat, width: nat) -> nat {
    if width == 0 || len % width == 0 {
        0
    } else {
        (width - len % width) as nat
    }
}

/// `state` with padding up to the next multiple of `width`.
pub open spec fn aligned(state: LayoutState, width: nat, padding: u8) -> LayoutState {
    LayoutState {
        buffer: state.buffer + Seq::new(gap(state.buffer.len(), width), |i: int| padding),
        padding: state.padding + gap(state.buffer.len(), width),
    }
}

/// The state after `entry` is laid out behind `state`. A field is aligned
/// to its own width and then written; a group lays out its entries in
/// order, and names the entry in which an error came up.
#[verifier::opaque]
pub open spec fn lay_out(
    entry: EntryView,
    data_sheet: Option<DataSheet>,
    rules: BuildRules,
    state: LayoutState,
) -> Result<LayoutState, LayoutErrorView>
    decreases entry,
{
    match entry {
        EntryView::Leaf(leaf) => {
            let ready = aligned(state, leaf.scalar_type.width(), rules.padding);
            match leaf.bytes(data_sheet, rules) {
                Err(e) => Err(e),
                Ok(bytes) => Ok(
                    LayoutState { buffer: ready.buffer + bytes, padding: ready.padding },
                ),
            }
        },
        EntryView::Branch(children) => lay_out_from(children, 0, data_sheet, rules, state),
    }
}

/// The state after the entries from position `from` on are laid out.
#[verifier::opaque]
pub open spec fn lay_out_from(
    children: Seq<(Seq<char>, EntryView)>,
    from: int,
    data_sheet: Option<DataSheet>,
    rules: BuildRules,
    state: LayoutState,
) -> Result<LayoutState, LayoutErrorView>
    decreases children, children.len() - from,
{
    if from < 0 || from >= children.len() {
        Ok(state)
    } else {
        match lay_out(children[from].1, data_sheet, rules, state) {
            Err(e) => Err(LayoutErrorView::InField { field: children[from].0, source: Box::new(e) }),
            Ok(next) => lay_out_from(children, from + 1, data_sheet, rules, next),
        }
    }
}

/// What laying out a field means.
pub proof fn lemma_lay_out_leaf(
    leaf: LeafEntryView,
    data_sheet: Option<DataSheet>,
    rules: BuildRules,
    state: LayoutState,
)
    ensures
        lay_out(EntryView::Leaf(leaf), data_sheet, rules, state) == match leaf.bytes(
            data_sheet,
            rules,
        ) {
            Err(e) => Err::<LayoutState, LayoutErrorView>(e),
            Ok(bytes) => Ok(
                LayoutState {
                    buffer: aligned(state, leaf.scalar_type.width(), rules.padding).buffer + bytes,
                    padding: aligned(state, leaf.scalar_type.width(), rules.padding).padding,
                },
            ),
        },
{
    reveal_with_fuel(lay_out, 2);
    reveal_with_fuel(lay_out_from, 2);
}

/// What laying out a group means.
pub proof fn lemma_lay_out_branch(
    children: Seq<(Seq<char>, EntryView)>,
    data_sheet: Option<DataSheet>,
    rules: BuildRules,
    state: LayoutState,
)
    ensures
        lay_out(EntryView::Branch(children), data_sheet, rules, state) == lay_out_from(
            children,
            0,
            data_sheet,
            rules,
            state,
        ),
{
    reveal_with_fuel(lay_out, 2);
    reveal_with_fuel(lay_out_from, 2);
}

/// What laying out the rest of a group means.
pub proof fn lemma_lay_out_from(
    children: Seq<(Seq<char>, EntryView)>,
    from: int,
    data_sheet: Option<DataSheet>,
    rules: BuildRules,
    state: LayoutState,
)
    ensures
        lay_out_from(children, from, data_sheet, rules, state) == if from < 0 || from
            >= children.len() {
            Ok::<LayoutState, LayoutErrorView>(state)
        } else {
            match lay_out(children[from].1, data_sheet, rules, state) {
                Err(e) => Err(
                    LayoutErrorView::InField { field: children[from].0, source: Box::new(e) },
                ),
                Ok(next) => lay_out_from(children, from + 1, data_sheet, rules, next),
            }
        },
{
    reveal_with_fuel(lay_out, 2);
    reveal_with_fuel(lay_out_from, 2);
}

/// A count held inside 32 bits.
pub open spec fn saturated(count: nat) -> u32 {
    if count > u32::MAX {
        u32::MAX
    } else {
        count as u32
    }
}

impl Block {
    /// The bytes of the block and the number of padding bytes among them
    /// that alignment brought in. Where the CRC goes to a symbolic place,
    /// the bytes end on a 4-byte boundary.
    pub open spec fn bytestream(
        self,
        data_sheet: Option<DataSheet>,
        settings: Settings,
        strict: bool,
    ) -> Result<(Seq<u8>, u32), LayoutErrorView> {
        let rules = BuildRules {
            endianness: settings.endianness,
            padding: self.header.padding,
            strict,
        };
        let start = LayoutState { buffer: Seq::empty(), padding: 0 };
        match lay_out(self.data@, data_sheet, rules, start) {
            Err(e) => Err(e),
            Ok(laid) => {
                let done = if self.header.crc_location is Keyword {
                    aligned(laid, 4, self.header.padding)
                } else {
                    laid
                };
                Ok((done.buffer, saturated(done.padding)))
            },
        }
    }
}

/// Buffer and padding count while a block is built.
pub struct BuildState {
    pub buffer: Vec<u8>,
    pub padding_count: usize,
}

impl View for BuildState {
    type V = LayoutState;

    open spec fn view(&self) -> LayoutState {
        LayoutState { buffer: self.buffer@, padding: self.padding_count as nat }
    }
}

impl BuildState {
    /// Whether the padding bytes that were counted are bytes of the buffer.
    pub open spec fn well_formed(self) -> bool {
        self.padding_count <= self.buffer@.len()
    }
}

/// Pads the buffer up to the next multiple of `width`.
fn align_to(state: &mut BuildState, width: usize, padding: u8)
    requires
        width > 0,
        old(state).well_formed(),
    ensures
        final(state)@ == aligned(old(state)@, width as nat, padding),
        final(state).well_formed(),
        final(state).buffer@.len() % (width as nat) == 0,
{
    let ghost start = state@;
    assert(state.buffer@ =~= start.buffer + Seq::new(0, |i: int| padding));
    while state.buffer.len() % width != 0
        invariant
            width > 0,
            state.padding_count <= state.buffer@.len(),
            start.buffer.len() <= state.buffer@.len(),
            state.buffer@.len() - start.buffer.len() + gap(state.buffer@.len(), width as nat)
                == gap(start.buffer.len(), width as nat),
            state.padding_count == start.padding + (state.buffer@.len() - start.buffer.len()),
            state.buffer@ == start.buffer + Seq::new(
                (state.buffer@.len() - start.buffer.len()) as nat,
                |i: int| padding,
            ),
        decreases gap(state.buffer@.len(), width as nat),
    {
        proof {
            lemma_gap_step(state.buffer@.len(), width as nat);
        }
        state.buffer.push(padding);
        let filled = state.buffer.len();
        assert(state.padding_count < filled);
        state.padding_count = state.padding_count + 1;
        assert(state.buffer@ =~= start.buffer + Seq::new(
            (state.buffer@.len() - start.buffer.len()) as nat,
            |i: int| padding,
        ));
    }
    proof {
        assert(gap(state.buffer@.len(), width as nat) == 0) by {
            lemma_gap_zero(state.buffer@.len(), width as nat);
        }
        assert(state.buffer@ =~= aligned(start, width as nat, padding).buffer);
    }
}

/// One more byte shortens the gap by one.
pub proof fn lemma_gap_step(len: nat, width: nat)
    requires
        width > 0,
        len % width != 0,
    ensures
        gap(len, width) == gap(len + 1, width) + 1,
{
    let r = (len % width) as int;
    let q = (len / width) as int;
    vstd::arithmetic::div_mod::lemma_fundamental_div_mod(len as int, width as int);
    if r + 1 < width {
        vstd::arithmetic::div_mod::lemma_fundamental_div_mod_converse(
            len as int + 1,
            width as int,
            q,
            r + 1,
        );
    } else {
        assert(len as int + 1 == (q + 1) * width) by (nonlinear_arith)
            requires
                len as int == width * q + r,
                r + 1 == width,
        ;
        vstd::arithmetic::div_mod::lemma_fundamental_div_mod_converse(
            len as int + 1,
            width as int,
            q + 1,
            0,
        );
    }
}

/// The gap ends at a multiple of the width.
pub proof fn lemma_gap_zero(len: nat, width: nat)
    requires
        width > 0,
    ensures
        gap(len, width) == 0 <==> len % width == 0,
        gap(len, width) < width,
        (len + gap(len, width)) % width == 0,
{
    let r = (len % width) as int;
    let q = (len / width) as int;
    vstd::arithmetic::div_mod::lemma_fundamental_div_mod(len as int, width as int);
    if r != 0 {
        assert(len as int + (width - r) == (q + 1) * width) by (nonlinear_arith)
            requires
                len as int == width * q + r,
        ;
        vstd::arithmetic::div_mod::lemma_fundamental_div_mod_converse(
            len as int + (width - r),
            width as int,
            q + 1,
            0,
        );
    }
}

impl Block {
    /// Lays out the block: the fields of its tree in order, each aligned to
    /// its own width, and the end brought to a 4-byte boundary where the CRC
    /// follows the payload. Returns the bytes and the number of padding
    /// bytes that alignment brought in.
    pub fn build_bytestream(
        &self,
        data_sheet: Option<&DataSheet>,
        settings: &Settings,
        strict: bool,
    ) -> (r: Result<(Vec<u8>, u32), LayoutError>)
        ensures
            match r {
                Ok((bytes, padding)) => self.bytestream(sheet_value(data_sheet), *settings, strict)
                    == Ok::<(Seq<u8>, u32), LayoutErrorView>((bytes@, padding)),
                Err(e) => self.bytestream(sheet_value(data_sheet), *settings, strict) == Err::<
                    (Seq<u8>, u32),
                    LayoutErrorView,
                >(e@),
            },
    {
        let hint: usize = if self.header.length > 0x1_0000 {
            0x1_0000
        } else {
            self.header.length as usize
        };
        let mut state = BuildState { buffer: Vec::with_capacity(hint), padding_count: 0 };
        let config = BuildConfig {
            endianness: &settings.endianness,
            padding: self.header.padding,
            strict,
        };
        match Self::build_bytestream_inner(&self.data, data_sheet, &mut state, &config) {
            Err(e) => {
                return Err(e);
            },
            Ok(()) => {},
        }
        match &self.header.crc_location {
            CrcLocation::Keyword(_) => {
                align_to(&mut state, 4, config.padding);
            },
            CrcLocation::Address(_) => {},
        }
        let padding: u32 = if state.padding_count > u32::MAX as usize {
            u32::MAX
        } else {
            state.padding_count as u32
        };
        Ok((state.buffer, padding))
    }

    /// Lays out `table` behind what `state` holds: a field is aligned to its
    /// own width with padding bytes, which are counted, and then written; a
    /// group lays out its entries in order.
    #[verifier::loop_isolation(false)]
    pub fn build_bytestream_inner(
        table: &Entry,
        data_sheet: Option<&DataSheet>,
        state: &mut BuildState,
        config: &BuildConfig,
    ) -> (r: Result<(), LayoutError>)
        requires
            old(state).well_formed(),
        ensures
            match r {
                Ok(()) => {
                    &&& lay_out(table@, sheet_value(data_sheet), config.rules(), old(state)@)
                        == Ok::<LayoutState, LayoutErrorView>(final(state)@)
                    &&& final(state).well_formed()
                },
                Err(e) => lay_out(table@, sheet_value(data_sheet), config.rules(), old(state)@)
                    == Err::<LayoutState, LayoutErrorView>(e@),
            },
        decreases table@,
    {
        match table {
            Entry::Leaf(leaf) => {
                proof {
                    lemma_lay_out_leaf(leaf@, sheet_value(data_sheet), config.rules(), state@);
                }
                let alignment = leaf.get_alignment();
                align_to(state, alignment, config.padding);
                match leaf.emit_bytes(data_sheet, config) {
                    Err(e) => Err(e),
                    Ok(mut bytes) => {
                        state.buffer.append(&mut bytes);
                        Ok(())
                    },
                }
            },
            Entry::Branch(branch) => {
                let ghost children = branch_entries(*branch);
                let ghost start = state@;
                proof {
                    lemma_lay_out_branch(children, sheet_value(data_sheet), config.rules(), start);
                }
                let n = branch.len();
                let mut i: usize = 0;
                while i < n
                    invariant
                        i <= n,
                        n == children.len(),
                        children == branch_entries(*branch),
                        table@ == EntryView::Branch(children),
                        state.padding_count <= state.buffer@.len(),
                        lay_out_from(
                            children,
                            0,
                            sheet_value(data_sheet),
                            config.rules(),
                            start,
                        ) == lay_out_from(
                            children,
                            i as int,
                            sheet_value(data_sheet),
                            config.rules(),
                            state@,
                        ),
                    decreases n - i,
                {
                    let (field_name, child) = map_get_index(branch, i);
                    proof {
                        assert(table@->Branch_0 == children);
                        assert(decreases_to!(table@ => table@->Branch_0));
                        assert(decreases_to!(children => children[i as int]));
                        assert(decreases_to!(children[i as int] => children[i as int].1));
                    }
                    let ghost before = state@;
                    proof {
                        lemma_lay_out_from(
                            children,
                            i as int,
                            sheet_value(data_sheet),
                            config.rules(),
                            before,
                        );
                    }
                    match Self::build_bytestream_inner(child, data_sheet, state, config) {
                        Err(e) => {
                            proof {
                                assert(lay_out(
                                    children[i as int].1,
                                    sheet_value(data_sheet),
                                    config.rules(),
                                    before,
                                ) == Err::<LayoutState, LayoutErrorView>(e@));
                                assert(field_name@ == children[i as int].0);
                            }
                            let field = field_name.clone();
                            let wrapped = LayoutError::InField { field, source: Box::new(e) };
                            return Err(wrapped);
                        },
                        Ok(()) => {},
                    }
                    i = i + 1;
                }
                proof {
                    lemma_lay_out_from(
                        children,
                        n as int,
                        sheet_value(data_sheet),
                        config.rules(),
                        state@,
                    );
                }
                Ok(())
            },
        }
    }
}

/// A field as it lies in the buffer: where its bytes start and what they
/// are.
pub struct Placement {
    pub offset: nat,
    pub leaf: LeafEntryView,
    pub bytes: Seq<u8>,
}

/// The fields of `entry` in the order in which they are written, each with
/// the offset at which its bytes start when the entry is laid out behind
/// `state`.
pub open spec fn placements(
    entry: EntryView,
    data_sheet: Option<DataSheet>,
    rules: BuildRules,
    state: LayoutState,
) -> Seq<Placement>
    decreases entry,
{
    match entry {
        EntryView::Leaf(leaf) => match leaf.bytes(data_sheet, rules) {
            Err(_) => Seq::empty(),
            Ok(bytes) => seq![
                Placement {
                    offset: aligned(state, leaf.scalar_type.width(), rules.padding).buffer.len(),
                    leaf,
                    bytes,
                },
            ],
        },
        EntryView::Branch(children) => placements_from(children, 0, data_sheet, rules, state),
    }
}

/// The fields of the entries from position `from` on.
pub open spec fn placements_from(
    children: Seq<(Seq<char>, EntryView)>,
    from: int,
    data_sheet: Option<DataSheet>,
    rules: BuildRules,
    state: LayoutState,
) -> Seq<Placement>
    decreases children, children.len() - from,
{
    if from < 0 || from >= children.len() {
        Seq::empty()
    } else {
        let first = placements(children[from].1, data_sheet, rules, state);
        match lay_out(children[from].1, data_sheet, rules, state) {
            Err(_) => first,
            Ok(next) => first + placements_from(children, from + 1, data_sheet, rules, next),
        }
    }
}

/// Whether `buffer` holds the field of `placement` at its offset, which is
/// a multiple of the width of the field and not below `floor`.
pub open spec fn placed(
    buffer: Seq<u8>,
    floor: nat,
    placement: Placement,
    data_sheet: Option<DataSheet>,
    rules: BuildRules,
) -> bool {
    &&& placement.offset % placement.leaf.scalar_type.width() == 0
    &&& floor <= placement.offset
    &&& placement.offset + placement.bytes.len() <= buffer.len()
    &&& buffer.subrange(
        placement.offset as int,
        (placement.offset + placement.bytes.len()) as int,
    ) == placement.bytes
    &&& placement.leaf.bytes(data_sheet, rules) == Ok::<Seq<u8>, LayoutErrorView>(placement.bytes)
}

/// Whether `longer` starts with `shorter`.
pub open spec fn extends(longer: Seq<u8>, shorter: Seq<u8>) -> bool {
    shorter.len() <= longer.len() && longer.subrange(0, shorter.len() as int) == shorter
}

/// Laying out an entry only adds bytes behind those that are there.
pub proof fn lemma_lay_out_extends(
    entry: EntryView,
    data_sheet: Option<DataSheet>,
    rules: BuildRules,
    state: LayoutState,
)
    requires
        lay_out(entry, data_sheet, rules, state) is Ok,
    ensures
        extends(lay_out(entry, data_sheet, rules, state)->Ok_0.buffer, state.buffer),
    decreases entry,
{
    match entry {
        EntryView::Leaf(leaf) => {
            lemma_lay_out_leaf(leaf, data_sheet, rules, state);
            let done = lay_out(entry, data_sheet, rules, state)->Ok_0;
            assert(done.buffer.subrange(0, state.buffer.len() as int) =~= state.buffer);
        },
        EntryView::Branch(children) => {
            lemma_lay_out_branch(children, data_sheet, rules, state);
            lemma_lay_out_from_extends(children, 0, data_sheet, rules, state);
        },
    }
}

/// Laying out the rest of a group only adds bytes behind those that are
/// there.
pub proof fn lemma_lay_out_from_extends(
    children: Seq<(Seq<char>, EntryView)>,
    from: int,
    data_sheet: Option<DataSheet>,
    rules: BuildRules,
    state: LayoutState,
)
    requires
        lay_out_from(children, from, data_sheet, rules, state) is Ok,
    ensures
        extends(lay_out_from(children, from, data_sheet, rules, state)->Ok_0.buffer, state.buffer),
    decreases children, children.len() - from,
{
    lemma_lay_out_from(children, from, data_sheet, rules, state);
    if 0 <= from < children.len() {
        let next = lay_out(children[from].1, data_sheet, rules, state)->Ok_0;
        lemma_lay_out_extends(children[from].1, data_sheet, rules, state);
        lemma_lay_out_from_extends(children, from + 1, data_sheet, rules, next);
        let done = lay_out_from(children, from, data_sheet, rules, state)->Ok_0;
        assert(done.buffer.subrange(0, state.buffer.len() as int) =~= next.buffer.subrange(
            0,
            state.buffer.len() as int,
        ));
    } else {
        assert(state.buffer.subrange(0, state.buffer.len() as int) =~= state.buffer);
    }
}

/// A field that lies in a buffer lies in every buffer that starts with it.
pub proof fn lemma_placed_in_longer(
    shorter: Seq<u8>,
    longer: Seq<u8>,
    floor: nat,
    placement: Placement,
    data_sheet: Option<DataSheet>,
    rules: BuildRules,
)
    requires
        placed(shorter, floor, placement, data_sheet, rules),
        extends(longer, shorter),
    ensures
        placed(longer, floor, placement, data_sheet, rules),
{
    let from = placement.offset as int;
    let to = (placement.offset + placement.bytes.len()) as int;
    assert(longer.subrange(from, to) =~= longer.subrange(0, shorter.len() as int).subrange(
        from,
        to,
    ));
}

/// In every block that is laid out, each field starts at a multiple of its
/// own width, behind what was there before, and the buffer holds the bytes
/// of the field at that place.
pub proof fn lemma_fields_are_aligned(
    entry: EntryView,
    data_sheet: Option<DataSheet>,
    rules: BuildRules,
    state: LayoutState,
)
    requires
        lay_out(entry, data_sheet, rules, state) is Ok,
    ensures
        forall|i: int|
            0 <= i < placements(entry, data_sheet, rules, state).len() ==> placed(
                lay_out(entry, data_sheet, rules, state)->Ok_0.buffer,
                state.buffer.len(),
                #[trigger] placements(entry, data_sheet, rules, state)[i],
                data_sheet,
                rules,
            ),
    decreases entry,
{
    match entry {
        EntryView::Leaf(leaf) => {
            lemma_lay_out_leaf(leaf, data_sheet, rules, state);
            let width = leaf.scalar_type.width();
            let ready = aligned(state, width, rules.padding);
            lemma_gap_zero(state.buffer.len(), width);
            let done = lay_out(entry, data_sheet, rules, state)->Ok_0;
            let bytes = leaf.bytes(data_sheet, rules)->Ok_0;
            assert(width > 0);
            assert(ready.buffer.len() == state.buffer.len() + gap(state.buffer.len(), width));
            assert(done.buffer == ready.buffer + bytes);
            assert(done.buffer.subrange(
                ready.buffer.len() as int,
                (ready.buffer.len() + bytes.len()) as int,
            ) =~= bytes);
            let all = placements(entry, data_sheet, rules, state);
            assert(all.len() == 1);
            assert(all[0] == Placement { offset: ready.buffer.len(), leaf, bytes });
            assert(placed(done.buffer, state.buffer.len(), all[0], data_sheet, rules));
        },
        EntryView::Branch(children) => {
            lemma_lay_out_branch(children, data_sheet, rules, state);
            lemma_fields_from_are_aligned(children, 0, data_sheet, rules, state);
            assert(placements(entry, data_sheet, rules, state) == placements_from(
                children,
                0,
                data_sheet,
                rules,
                state,
            ));
        },
    }
}

/// The same for the entries of a group from position `from` on.
pub proof fn lemma_fields_from_are_aligned(
    children: Seq<(Seq<char>, EntryView)>,
    from: int,
    data_sheet: Option<DataSheet>,
    rules: BuildRules,
    state: LayoutState,
)
    requires
        lay_out_from(children, from, data_sheet, rules, state) is Ok,
    ensures
        forall|i: int|
            0 <= i < placements_from(children, from, data_sheet, rules, state).len() ==> placed(
                lay_out_from(children, from, data_sheet, rules, state)->Ok_0.buffer,
                state.buffer.len(),
                #[trigger] placements_from(children, from, data_sheet, rules, state)[i],
                data_sheet,
                rules,
            ),
    decreases children, children.len() - from,
{
    lemma_lay_out_from(children, from, data_sheet, rules, state);
    if 0 <= from < children.len() {
        let child = children[from].1;
        let next = lay_out(child, data_sheet, rules, state)->Ok_0;
        let done = lay_out_from(children, from, data_sheet, rules, state)->Ok_0;
        let first = placements(child, data_sheet, rules, state);
        let rest = placements_from(children, from + 1, data_sheet, rules, next);
        lemma_fields_are_aligned(child, data_sheet, rules, state);
        lemma_fields_from_are_aligned(children, from + 1, data_sheet, rules, next);
        lemma_lay_out_extends(child, data_sheet, rules, state);
        lemma_lay_out_from_extends(children, from + 1, data_sheet, rules, next);
        assert forall|i: int| 0 <= i < (first + rest).len() implies placed(
            done.buffer,
            state.buffer.len(),
            #[trigger] (first + rest)[i],
            data_sheet,
            rules,
        ) by {
            if i < first.len() {
                lemma_placed_in_longer(
                    next.buffer,
                    done.buffer,
                    state.buffer.len(),
                    first[i],
                    data_sheet,
                    rules,
                );
            } else {
                assert((first + rest)[i] == rest[i - first.len()]);
            }
        }
    }
}

/// A build gives the same bytes for every block of the same content: what
/// is built depends on the header and on the tree of fields alone.
pub proof fn lemma_same_content_same_bytes(
    one: Block,
    other: Block,
    data_sheet: Option<DataSheet>,
    settings: Settings,
    strict: bool,
)
    requires
        one.header@ == other.header@,
        one.data@ == other.data@,
    ensures
        one.bytestream(data_sheet, settings, strict) == other.bytestream(
            data_sheet,
            settings,
            strict,
        ),
{
}

/// In every block that is built, each field lies at a multiple of its own
/// width, and the bytes of the block hold the bytes of the field there.
pub proof fn lemma_block_fields_are_aligned(
    block: Block,
    data_sheet: Option<DataSheet>,
    settings: Settings,
    strict: bool,
)
    requires
        block.bytestream(data_sheet, settings, strict) is Ok,
    ensures
        ({
            let rules = BuildRules {
                endianness: settings.endianness,
                padding: block.header.padding,
                strict,
            };
            let start = LayoutState { buffer: Seq::empty(), padding: 0 };
            let fields = placements(block.data@, data_sheet, rules, start);
            let bytes = block.bytestream(data_sheet, settings, strict)->Ok_0.0;
            forall|i: int|
                0 <= i < fields.len() ==> placed(bytes, 0, #[trigger] fields[i], data_sheet, rules)
        }),
{
    let rules = BuildRules {
        endianness: settings.endianness,
        padding: block.header.padding,
        strict,
    };
    let start = LayoutState { buffer: Seq::empty(), padding: 0 };
    let fields = placements(block.data@, data_sheet, rules, start);
    let laid = lay_out(block.data@, data_sheet, rules, start)->Ok_0;
    let bytes = block.bytestream(data_sheet, settings, strict)->Ok_0.0;
    lemma_fields_are_aligned(block.data@, data_sheet, rules, start);
    assert(extends(bytes, laid.buffer)) by {
        assert(bytes.subrange(0, laid.buffer.len() as int) =~= laid.buffer);
    }
    assert forall|i: int| 0 <= i < fields.len() implies placed(
        bytes,
        0,
        #[trigger] fields[i],
        data_sheet,
        rules,
    ) by {
        lemma_placed_in_longer(laid.buffer, bytes, 0, fields[i], data_sheet, rules);
    }
}

/// Whether every field of the list ends before the next one starts.
pub open spec fn in_order(fields: Seq<Placement>) -> bool {
    forall|i: int, j: int|
        0 <= i < j < fields.len() ==> (#[trigger] fields[i]).offset + fields[i].bytes.len() <= (
        #[trigger] fields[j]).offset
}

/// The fields of an entry lie in the buffer in the order in which the tree
/// lists them, none reaching into the next: the offsets of the entries of a
/// group grow with their order.
pub proof fn lemma_fields_are_in_order(
    entry: EntryView,
    data_sheet: Option<DataSheet>,
    rules: BuildRules,
    state: LayoutState,
)
    requires
        lay_out(entry, data_sheet, rules, state) is Ok,
    ensures
        in_order(placements(entry, data_sheet, rules, state)),
    decreases entry,
{
    match entry {
        EntryView::Leaf(leaf) => {
            lemma_lay_out_leaf(leaf, data_sheet, rules, state);
        },
        EntryView::Branch(children) => {
            lemma_lay_out_branch(children, data_sheet, rules, state);
            lemma_fields_from_are_in_order(children, 0, data_sheet, rules, state);
            assert(placements(entry, data_sheet, rules, state) == placements_from(
                children,
                0,
                data_sheet,
                rules,
                state,
            ));
        },
    }
}

/// The same for the entries of a group from position `from` on.
pub proof fn lemma_fields_from_are_in_order(
    children: Seq<(Seq<char>, EntryView)>,
    from: int,
    data_sheet: Option<DataSheet>,
    rules: BuildRules,
    state: LayoutState,
)
    requires
        lay_out_from(children, from, data_sheet, rules, state) is Ok,
    ensures
        in_order(placements_from(children, from, data_sheet, rules, state)),
    decreases children, children.len() - from,
{
    lemma_lay_out_from(children, from, data_sheet, rules, state);
    if 0 <= from < children.len() {
        let child = children[from].1;
        let next = lay_out(child, data_sheet, rules, state)->Ok_0;
        let first = placements(child, data_sheet, rules, state);
        let rest = placements_from(children, from + 1, data_sheet, rules, next);
        lemma_fields_are_in_order(child, data_sheet, rules, state);
        lemma_fields_from_are_in_order(children, from + 1, data_sheet, rules, next);
        lemma_fields_are_aligned(child, data_sheet, rules, state);
        lemma_fields_from_are_aligned(children, from + 1, data_sheet, rules, next);
        let all = first + rest;
        assert forall|i: int, j: int| 0 <= i < j < all.len() implies (#[trigger] all[i]).offset
            + all[i].bytes.len() <= (#[trigger] all[j]).offset by {
            if j < first.len() {
                assert(all[i] == first[i] && all[j] == first[j]);
            } else if i >= first.len() {
                assert(all[i] == rest[i - first.len()] && all[j] == rest[j - first.len()]);
            } else {
                assert(all[i] == first[i] && all[j] == rest[j - first.len()]);
                assert(placed(next.buffer, state.buffer.len(), first[i], data_sheet, rules));
                assert(placed(
                    lay_out_from(children, from + 1, data_sheet, rules, next)->Ok_0.buffer,
                    next.buffer.len(),
                    rest[j - first.len()],
                    data_sheet,
                    rules,
                ));
            }
        }
    }
}

/// The number of bytes that the first `upto` fields hold together.
pub open spec fn field_bytes(fields: Seq<Placement>, upto: int) -> nat
    decreases upto,
{
    if upto <= 0 || upto > fields.len() {
        0
    } else {
        field_bytes(fields, upto - 1) + fields[upto - 1].bytes.len()
    }
}

/// Whether the byte at `at` belongs to one of the fields.
pub open spec fn in_a_field(fields: Seq<Placement>, at: int) -> bool {
    exists|i: int|
        0 <= i < fields.len() && (#[trigger] fields[i]).offset <= at < fields[i].offset
            + fields[i].bytes.len()
}

/// Whether the bytes that were laid out behind `before` are those of the
/// fields and, everywhere else, padding bytes, each of which was counted.
pub open spec fn filled_with_padding(
    before: LayoutState,
    after: LayoutState,
    fields: Seq<Placement>,
    padding: u8,
) -> bool {
    &&& before.padding <= after.padding
    &&& after.buffer.len() == before.buffer.len() + field_bytes(fields, fields.len() as int) + (
    after.padding - before.padding)
    &&& forall|at: int|
        before.buffer.len() <= at < after.buffer.len() && !in_a_field(fields, at)
            ==> #[trigger] after.buffer[at] == padding
}

/// Two lists of fields hold together what each of them holds.
proof fn lemma_field_bytes_add(first: Seq<Placement>, rest: Seq<Placement>, upto: int)
    requires
        0 <= upto <= rest.len(),
    ensures
        field_bytes(first + rest, first.len() + upto) == field_bytes(first, first.len() as int)
            + field_bytes(rest, upto),
    decreases upto,
{
    if upto > 0 {
        lemma_field_bytes_add(first, rest, upto - 1);
        assert((first + rest)[first.len() + upto - 1] == rest[upto - 1]);
    } else {
        lemma_field_bytes_head(first, rest, first.len() as int);
    }
}

/// The first fields of a longer list hold what they hold alone.
proof fn lemma_field_bytes_head(first: Seq<Placement>, rest: Seq<Placement>, upto: int)
    requires
        0 <= upto <= first.len(),
    ensures
        field_bytes(first + rest, upto) == field_bytes(first, upto),
    decreases upto,
{
    if upto > 0 {
        lemma_field_bytes_head(first, rest, upto - 1);
        assert((first + rest)[upto - 1] == first[upto - 1]);
    }
}

/// Between the fields of an entry that is laid out there is nothing but
/// padding: every byte that was added and belongs to no field is the padding
/// byte, and the padding count grew by the number of those bytes.
pub proof fn lemma_gaps_are_padding(
    entry: EntryView,
    data_sheet: Option<DataSheet>,
    rules: BuildRules,
    state: LayoutState,
)
    requires
        lay_out(entry, data_sheet, rules, state) is Ok,
    ensures
        filled_with_padding(
            state,
            lay_out(entry, data_sheet, rules, state)->Ok_0,
            placements(entry, data_sheet, rules, state),
            rules.padding,
        ),
    decreases entry,
{
    match entry {
        EntryView::Leaf(leaf) => {
            lemma_lay_out_leaf(leaf, data_sheet, rules, state);
            let ready = aligned(state, leaf.scalar_type.width(), rules.padding);
            let done = lay_out(entry, data_sheet, rules, state)->Ok_0;
            let bytes = leaf.bytes(data_sheet, rules)->Ok_0;
            let fields = placements(entry, data_sheet, rules, state);
            assert(fields.len() == 1);
            assert(fields[0] == Placement { offset: ready.buffer.len(), leaf, bytes });
            assert(field_bytes(fields, 1) == field_bytes(fields, 0) + bytes.len());
            assert forall|at: int|
                state.buffer.len() <= at < done.buffer.len() && !in_a_field(
                    fields,
                    at,
                ) implies #[trigger] done.buffer[at] == rules.padding by {
                if at >= ready.buffer.len() {
                    assert(fields[0].offset <= at < fields[0].offset + fields[0].bytes.len());
                }
            }
        },
        EntryView::Branch(children) => {
            lemma_lay_out_branch(children, data_sheet, rules, state);
            lemma_gaps_from_are_padding(children, 0, data_sheet, rules, state);
            assert(placements(entry, data_sheet, rules, state) == placements_from(
                children,
                0,
                data_sheet,
                rules,
                state,
            ));
        },
    }
}

/// The same for the entries of a group from position `from` on.
pub proof fn lemma_gaps_from_are_padding(
    children: Seq<(Seq<char>, EntryView)>,
    from: int,
    data_sheet: Option<DataSheet>,
    rules: BuildRules,
    state: LayoutState,
)
    requires
        lay_out_from(children, from, data_sheet, rules, state) is Ok,
    ensures
        filled_with_padding(
            state,
            lay_out_from(children, from, data_sheet, rules, state)->Ok_0,
            placements_from(children, from, data_sheet, rules, state),
            rules.padding,
        ),
    decreases children, children.len() - from,
{
    lemma_lay_out_from(children, from, data_sheet, rules, state);
    if 0 <= from < children.len() {
        let child = children[from].1;
        let next = lay_out(child, data_sheet, rules, state)->Ok_0;
        let done = lay_out_from(children, from, data_sheet, rules, state)->Ok_0;
        let first = placements(child, data_sheet, rules, state);
        let rest = placements_from(children, from + 1, data_sheet, rules, next);
        let all = first + rest;
        lemma_gaps_are_padding(child, data_sheet, rules, state);
        lemma_gaps_from_are_padding(children, from + 1, data_sheet, rules, next);
        lemma_lay_out_from_extends(children, from + 1, data_sheet, rules, next);
        lemma_field_bytes_add(first, rest, rest.len() as int);
        assert(placements_from(children, from, data_sheet, rules, state) == all);
        assert forall|at: int|
            state.buffer.len() <= at < done.buffer.len() && !in_a_field(
                all,
                at,
            ) implies #[trigger] done.buffer[at] == rules.padding by {
            if at < next.buffer.len() {
                if in_a_field(first, at) {
                    let i = choose|i: int|
                        0 <= i < first.len() && (#[trigger] first[i]).offset <= at
                            < first[i].offset + first[i].bytes.len();
                    assert(all[i] == first[i]);
                }
                assert(next.buffer[at] == rules.padding);
                assert(done.buffer.subrange(0, next.buffer.len() as int)[at]
                    == done.buffer[at]);
            } else {
                if in_a_field(rest, at) {
                    let i = choose|i: int|
                        0 <= i < rest.len() && (#[trigger] rest[i]).offset <= at < rest[i].offset
                            + rest[i].bytes.len();
                    assert(all[first.len() + i] == rest[i]);
                }
            }
        }
    } else {
        assert(placements_from(children, from, data_sheet, rules, state).len() == 0);
    }
}

/// In every block that is built, each byte that belongs to no field is the
/// padding byte of the block, and the padding count is the number of those
/// bytes, as far as it can be counted.
pub proof fn lemma_block_gaps_are_padding(
    block: Block,
    data_sheet: Option<DataSheet>,
    settings: Settings,
    strict: bool,
)
    requires
        block.bytestream(data_sheet, settings, strict) is Ok,
    ensures
        ({
            let rules = BuildRules {
                endianness: settings.endianness,
                padding: block.header.padding,
                strict,
            };
            let start = LayoutState { buffer: Seq::empty(), padding: 0 };
            let fields = placements(block.data@, data_sheet, rules, start);
            let (bytes, padding) = block.bytestream(data_sheet, settings, strict)->Ok_0;
            let gaps = bytes.len() - field_bytes(fields, fields.len() as int);
            &&& forall|at: int|
                0 <= at < bytes.len() && !in_a_field(fields, at) ==> #[trigger] bytes[at]
                    == block.header.padding
            &&& 0 <= gaps
            &&& padding == saturated(gaps as nat)
        }),
{
    let rules = BuildRules {
        endianness: settings.endianness,
        padding: block.header.padding,
        strict,
    };
    let start = LayoutState { buffer: Seq::empty(), padding: 0 };
    lemma_gaps_are_padding(block.data@, data_sheet, rules, start);
}

} // verus!
