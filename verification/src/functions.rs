//! The function table: what is known of each function found, by address.

use vstd::prelude::*;
use std::collections::BTreeMap;
use std::collections::BTreeSet;
use crate::memory::MemoryType;

verus! {

/// Bounds of the signed displacements seen at one jump.
#[derive(Debug, Clone, Copy, PartialEq, Eq, Structural)]
pub struct Jump {
    pub left: i64,
    pub right: i64,
}

/// What is known of one function.
#[derive(Debug, Clone, PartialEq, Eq)]
pub struct FuncInfo {
    pub address: u64,
    pub mem_address: u64,
    pub xrefs: BTreeSet<u64>,
    pub name: String,
    pub argc: usize,
    pub mem_type: MemoryType,
    pub returns: BTreeSet<u64>,
    pub return_values: BTreeMap<u64, u64>,
    pub jumps: BTreeMap<u64, Jump>,
}

/// The mathematical content of a [`FuncInfo`].
pub struct FuncModel {
    pub address: u64,
    pub mem_address: u64,
    pub xrefs: Set<u64>,
    pub name: Seq<char>,
    pub argc: usize,
    pub mem_type: MemoryType,
    pub returns: Set<u64>,
    pub return_values: Map<u64, u64>,
    pub jumps: Map<u64, Jump>,
}

impl View for FuncInfo {
    type V = FuncModel;

    open spec fn view(&self) -> FuncModel {
        FuncModel {
            address: self.address,
            mem_address: self.mem_address,
            xrefs: self.xrefs@,
            name: self.name@,
            argc: self.argc,
            mem_type: self.mem_type,
            returns: self.returns@,
            return_values: self.return_values@,
            jumps: self.jumps@,
        }
    }
}

/// A function of which only the address is known.
pub open spec fn fresh(address: u64) -> FuncModel {
    FuncModel {
        address,
        mem_address: 0,
        xrefs: Set::<u64>::empty(),
        name: Seq::<char>::empty(),
        argc: 0,
        mem_type: MemoryType::Image,
        returns: Set::<u64>::empty(),
        return_values: Map::<u64, u64>::empty(),
        jumps: Map::<u64, Jump>::empty(),
    }
}

/// What the table knows of the function at `address`: its entry, or a fresh
/// one where it has none.
pub open spec fn entry(table: Map<u64, FuncModel>, address: u64) -> FuncModel {
    if table.contains_key(address) {
        table[address]
    } else {
        fresh(address)
    }
}

/// Every entry stands under its own address.
pub open spec fn table_wf(table: Map<u64, FuncModel>) -> bool {
    forall|k: u64| table.contains_key(k) ==> (#[trigger] table[k]).address == k
}

/// The table with an entry for `address`.
pub open spec fn spec_get_or_create(table: Map<u64, FuncModel>, address: u64) -> Map<
    u64,
    FuncModel,
> {
    table.insert(address, entry(table, address))
}

/// The table after the call site `site` was noted for `callee`.
pub open spec fn spec_add_xref(table: Map<u64, FuncModel>, callee: u64, site: u64) -> Map<
    u64,
    FuncModel,
> {
    let f = entry(table, callee);
    table.insert(callee, FuncModel { xrefs: f.xrefs.insert(site), ..f })
}

/// The table after the return at `site` was noted for `function`.
pub open spec fn spec_add_return(table: Map<u64, FuncModel>, function: u64, site: u64) -> Map<
    u64,
    FuncModel,
> {
    let f = entry(table, function);
    table.insert(function, FuncModel { returns: f.returns.insert(site), ..f })
}

/// The table after `value` was noted as what `function` returns at `site`.
pub open spec fn spec_set_return_value(
    table: Map<u64, FuncModel>,
    function: u64,
    site: u64,
    value: u64,
) -> Map<u64, FuncModel> {
    let f = entry(table, function);
    table.insert(function, FuncModel { return_values: f.return_values.insert(site, value), ..f })
}

/// The bounds after one more displacement was seen.
pub open spec fn widen(seen: Option<Jump>, displacement: i64) -> Jump {
    match seen {
        Some(j) => Jump {
            left: if displacement < j.left {
                displacement
            } else {
                j.left
            },
            right: if displacement > j.right {
                displacement
            } else {
                j.right
            },
        },
        None => Jump { left: displacement, right: displacement },
    }
}

/// The table after a jump of `displacement` was seen at `site` in `function`.
pub open spec fn spec_add_jump(
    table: Map<u64, FuncModel>,
    function: u64,
    site: u64,
    displacement: i64,
) -> Map<u64, FuncModel> {
    let f = entry(table, function);
    let seen = if f.jumps.contains_key(site) {
        Some(f.jumps[site])
    } else {
        None
    };
    table.insert(function, FuncModel { jumps: f.jumps.insert(site, widen(seen, displacement)), ..f })
}

/// The table after the function at `address` was given the name `name`; a
/// function that the table does not hold is not added.
pub open spec fn spec_rename(table: Map<u64, FuncModel>, address: u64, name: Seq<char>) -> Map<
    u64,
    FuncModel,
> {
    if table.contains_key(address) {
        table.insert(address, FuncModel { name, ..table[address] })
    } else {
        table
    }
}

/// The way from `from` to `to` as a signed number, held to the range of `i64`.
pub open spec fn spec_displacement(from: u64, to: u64) -> i64 {
    if to - from > i64::MAX {
        i64::MAX
    } else if to - from < i64::MIN {
        i64::MIN
    } else {
        (to - from) as i64
    }
}

/// The way from `from` to `to` as a signed number, held to the range of `i64`.
pub fn displacement(from: u64, to: u64) -> (d: i64)
    ensures
        d == spec_displacement(from, to),
{
    if to >= from {
        let up: u64 = to - from;
        if up > i64::MAX as u64 {
            i64::MAX
        } else {
            up as i64
        }
    } else {
        let down: u64 = from - to;
        if down > i64::MAX as u64 {
            i64::MIN
        } else {
            -(down as i64)
        }
    }
}

impl FuncInfo {
    /// A function of which only the address is known.
    pub fn new(address: u64) -> (f: FuncInfo)
        ensures
            f@ == fresh(address),
    {
        FuncInfo {
            address,
            mem_address: 0,
            xrefs: BTreeSet::new(),
            name: String::new(),
            argc: 0,
            mem_type: MemoryType::Image,
            returns: BTreeSet::new(),
            return_values: BTreeMap::new(),
            jumps: BTreeMap::new(),
        }
    }
}

/// The functions found, by address.
#[derive(Debug, Clone, PartialEq, Eq)]
pub struct FunctionTable {
    pub funcs: BTreeMap<u64, FuncInfo>,
}

impl View for FunctionTable {
    type V = Map<u64, FuncModel>;

    open spec fn view(&self) -> Map<u64, FuncModel> {
        Map::new(|k: u64| self.funcs@.contains_key(k), |k: u64| self.funcs@[k]@)
    }
}

impl FunctionTable {
    /// Every entry stands under its own address.
    pub open spec fn wf(&self) -> bool {
        table_wf(self@)
    }

    /// A table without functions.
    pub fn new() -> (table: FunctionTable)
        ensures
            table.wf(),
            table@ == Map::<u64, FuncModel>::empty(),
    {
        let table = FunctionTable { funcs: BTreeMap::new() };
        assert(table@ =~= Map::<u64, FuncModel>::empty());
        table
    }

    /// Number of functions.
    pub fn len(&self) -> (n: usize)
        ensures
            n == self@.len(),
            self@.dom().finite(),
    {
        broadcast use vstd::std_specs::btree::group_btree_axioms;

        assert(self@.dom() =~= self.funcs@.dom());
        self.funcs.len()
    }

    /// Whether the table holds a function at `address`.
    pub fn contains(&self, address: u64) -> (b: bool)
        ensures
            b == self@.contains_key(address),
    {
        broadcast use vstd::std_specs::btree::group_btree_axioms;

        self.funcs.contains_key(&address)
    }

    /// The function at `address`, where the table holds one.
    pub fn get(&self, address: u64) -> (r: Option<&FuncInfo>)
        ensures
            match r {
                Some(f) => self@.contains_key(address) && f@ == self@[address],
                None => !self@.contains_key(address),
            },
    {
        broadcast use vstd::std_specs::btree::group_btree_axioms;

        self.funcs.get(&address)
    }

    /// Takes the entry for `address` out of the table, or makes a fresh one.
    fn take(&mut self, address: u64) -> (f: FuncInfo)
        requires
            old(self).wf(),
        ensures
            f@ == entry(old(self)@, address),
            f.address == address,
            final(self).funcs@ == old(self).funcs@.remove(address),
    {
        broadcast use vstd::std_specs::btree::group_btree_axioms;

        match self.funcs.remove(&address) {
            Some(f) => {
                assert(old(self)@.contains_key(address));
                assert(old(self)@[address] == f@);
                f
            },
            None => FuncInfo::new(address),
        }
    }

    /// Puts `f` into the table under its address.
    fn put(&mut self, f: FuncInfo)
        ensures
            final(self).funcs@ == old(self).funcs@.insert(f.address, f),
    {
        broadcast use vstd::std_specs::btree::group_btree_axioms;

        self.funcs.insert(f.address, f);
    }

    /// Makes sure that the table holds the function at `address`. A second
    /// call for the same address changes nothing.
    pub fn get_or_create(&mut self, address: u64)
        requires
            old(self).wf(),
        ensures
            final(self).wf(),
            final(self)@ == spec_get_or_create(old(self)@, address),
    {
        let f = self.take(address);
        self.put(f);
        assert(self@ =~= spec_get_or_create(old(self)@, address));
    }

    /// Notes the call site `site` for the function at `callee`, which is
    /// added where the table does not hold it.
    pub fn add_xref(&mut self, callee: u64, site: u64)
        requires
            old(self).wf(),
        ensures
            final(self).wf(),
            final(self)@ == spec_add_xref(old(self)@, callee, site),
    {
        broadcast use vstd::std_specs::btree::group_btree_axioms;

        let mut f = self.take(callee);
        f.xrefs.insert(site);
        self.put(f);
        assert(self@ =~= spec_add_xref(old(self)@, callee, site));
    }

    /// Notes the return at `site` for the function at `function`, which is
    /// added where the table does not hold it.
    pub fn add_return(&mut self, function: u64, site: u64)
        requires
            old(self).wf(),
        ensures
            final(self).wf(),
            final(self)@ == spec_add_return(old(self)@, function, site),
    {
        broadcast use vstd::std_specs::btree::group_btree_axioms;

        let mut f = self.take(function);
        f.returns.insert(site);
        self.put(f);
        assert(self@ =~= spec_add_return(old(self)@, function, site));
    }

    /// Notes `value` as what the function at `function` returns at `site`.
    pub fn set_return_value(&mut self, function: u64, site: u64, value: u64)
        requires
            old(self).wf(),
        ensures
            final(self).wf(),
            final(self)@ == spec_set_return_value(old(self)@, function, site, value),
    {
        broadcast use vstd::std_specs::btree::group_btree_axioms;

        let mut f = self.take(function);
        f.return_values.insert(site, value);
        self.put(f);
        assert(self@ =~= spec_set_return_value(old(self)@, function, site, value));
    }

    /// Notes a jump of `displacement` at `site` in the function at
    /// `function`: the bounds kept for the site widen to hold it.
    pub fn add_jump(&mut self, function: u64, site: u64, displacement: i64)
        requires
            old(self).wf(),
        ensures
            final(self).wf(),
            final(self)@ == spec_add_jump(old(self)@, function, site, displacement),
    {
        broadcast use vstd::std_specs::btree::group_btree_axioms;

        let mut f = self.take(function);
        let bounds = match f.jumps.get(&site) {
            Some(j) => Jump {
                left: if displacement < j.left {
                    displacement
                } else {
                    j.left
                },
                right: if displacement > j.right {
                    displacement
                } else {
                    j.right
                },
            },
            None => Jump { left: displacement, right: displacement },
        };
        f.jumps.insert(site, bounds);
        self.put(f);
        assert(self@ =~= spec_add_jump(old(self)@, function, site, displacement));
    }

    /// Gives the function at `address` the name `name`. No entry is added or
    /// removed; the answer says whether the table holds the function.
    pub fn rename(&mut self, address: u64, name: String) -> (found: bool)
        requires
            old(self).wf(),
        ensures
            final(self).wf(),
            found == old(self)@.contains_key(address),
            final(self)@ == spec_rename(old(self)@, address, name@),
    {
        broadcast use vstd::std_specs::btree::group_btree_axioms;

        if self.funcs.contains_key(&address) {
            let mut f = self.take(address);
            f.name = name;
            self.put(f);
            assert(self@ =~= spec_rename(old(self)@, address, name@));
            true
        } else {
            assert(self@ =~= spec_rename(old(self)@, address, name@));
            false
        }
    }
}

} // verus!
