use vstd::prelude::*;

verus! {

/// Marks the entities to despawn and spawn again when the configuration is reloaded.
#[derive(PartialEq, Eq, Structural, Clone, Copy, Debug)]
pub struct ReloadWithConfig;

/// What the configuration says of a kind of tile.
#[derive(Debug)]
pub struct TileProperty {
    pub name: String,
    pub image: String,
    pub farmable: bool,
    pub collidable: bool,
}

impl Default for TileProperty {
    fn default() -> (t: Self)
        ensures
            t.name@ == "unknown"@,
            t.image@ == "unknown"@,
            !t.farmable,
            !t.collidable,
    {
        Self {
            name: "unknown".to_owned(),
            image: "unknown".to_owned(),
            farmable: false,
            collidable: false,
        }
    }
}

/// An item the player starts out with: its name, how many of it (one if not
/// said), and flags such as whether it starts equipped.
#[derive(Debug)]
pub struct InventoryEntry {
    pub name: String,
    pub count: Option<usize>,
    pub flags: Vec<String>,
}

/// Whether a flag of an inventory entry asks for the item to be equipped.
pub open spec fn is_equip_flag(flag: Seq<char>) -> bool {
    flag == "equipped"@ || flag == "equip"@
}

impl InventoryEntry {
    /// How many of this item the player starts with.
    pub fn count_or_default(&self) -> (n: usize)
        ensures
            n == match self.count {
                Some(c) => c,
                None => 1,
            },
    {
        match self.count {
            Some(c) => c,
            None => 1,
        }
    }

    /// Whether every flag of this entry is one the configuration knows:
    /// "equipped" or "equip".
    pub fn flags_valid(&self) -> (b: bool)
        ensures
            b == forall|i: int| 0 <= i < self.flags@.len() ==> is_equip_flag(#[trigger] self.flags@[i]@),
    {
        let mut i: usize = 0;
        while i < self.flags.len()
            invariant
                i <= self.flags.len(),
                forall|j: int| 0 <= j < i ==> is_equip_flag(#[trigger] self.flags@[j]@),
            decreases self.flags.len() - i,
        {
            let flag = &self.flags[i];
            if !(*flag == "equipped".to_owned() || *flag == "equip".to_owned()) {
                return false;
            }
            i += 1;
        }
        true
    }

    /// How many times the item is asked to be equipped: once per flag, every
    /// flag being an equip flag.
    pub fn equip_requests(&self) -> (n: usize)
        requires
            forall|i: int| 0 <= i < self.flags@.len() ==> is_equip_flag(#[trigger] self.flags@[i]@),
        ensures
            n == self.flags@.len(),
    {
        self.flags.len()
    }
}

/// A range of values read from the configuration.
#[derive(Debug)]
pub struct RangeConfig<T> {
    pub lo: T,
    pub hi: T,
}

impl<T> From<std::ops::Range<T>> for RangeConfig<T> {
    fn from(other: std::ops::Range<T>) -> (r: RangeConfig<T>)
        ensures
            r.lo == other.start,
            r.hi == other.end,
    {
        RangeConfig { lo: other.start, hi: other.end }
    }
}

impl<T> vstd::std_specs::convert::FromSpecImpl<std::ops::Range<T>> for RangeConfig<T> {
    open spec fn obeys_from_spec() -> bool {
        true
    }

    open spec fn from_spec(other: std::ops::Range<T>) -> RangeConfig<T> {
        RangeConfig { lo: other.start, hi: other.end }
    }
}

} // verus!
