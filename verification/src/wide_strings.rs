use vstd::prelude::*;
use vstd::string::StrSliceExecFns;

verus! {

/// The UTF-16 code units of one character: the character's number where it
/// is below 0x10000, else a surrogate pair.
pub open spec fn utf16_of(c: char) -> Seq<u16> {
    let v = c as u32;
    if v < 0x10000 {
        seq![v as u16]
    } else {
        let w = (v - 0x10000) as int;
        seq![(0xD800 + w / 0x400) as u16, (0xDC00 + w % 0x400) as u16]
    }
}

/// The UTF-16 code units of a text.
pub open spec fn utf16(s: Seq<char>) -> Seq<u16>
    decreases s.len(),
{
    if s.len() == 0 {
        Seq::empty()
    } else {
        utf16(s.drop_last()) + utf16_of(s.last())
    }
}

/// A text as a wide string: its UTF-16 code units, then a 0.
pub open spec fn wide(s: Seq<char>) -> Seq<u16> {
    utf16(s).push(0u16)
}

/// Keeps wide strings alive for as long as the window system may read them.
pub struct WideStringManager {
    pub memory: Vec<Vec<u16>>,
}

impl Default for WideStringManager {
    /// A manager that keeps nothing yet.
    fn default() -> (manager: WideStringManager)
        ensures
            manager.strings() == Seq::<Seq<u16>>::empty(),
    {
        WideStringManager::new()
    }
}

impl WideStringManager {
    /// The wide strings kept, oldest first.
    pub open spec fn strings(&self) -> Seq<Seq<u16>> {
        Seq::new(self.memory@.len(), |k: int| self.memory@[k]@)
    }

    /// A manager that keeps nothing yet.
    pub fn new() -> (manager: WideStringManager)
        ensures
            manager.strings() == Seq::<Seq<u16>>::empty(),
    {
        let manager = WideStringManager { memory: Vec::new() };
        assert(manager.strings() =~= Seq::<Seq<u16>>::empty());
        manager
    }

    /// A text as a wide string.
    pub fn to_vec(str: &str) -> (units: Vec<u16>)
        ensures
            units@ == wide(str@),
    {
        let n = str.unicode_len();
        let mut units: Vec<u16> = Vec::new();
        let mut i: usize = 0;
        while i < n
            invariant
                n == str@.len(),
                i <= n,
                units@ == utf16(str@.take(i as int)),
            decreases n - i,
        {
            let c = str.get_char(i);
            let v: u32 = c as u32;
            proof {
                assert(str@.take(i + 1).drop_last() =~= str@.take(i as int));
                assert(str@.take(i + 1).last() == c);
            }
            if v < 0x10000 {
                units.push(v as u16);
            } else {
                let w: u32 = v - 0x10000;
                units.push((0xD800 + w / 0x400) as u16);
                units.push((0xDC00 + w % 0x400) as u16);
            }
            assert(units@ =~= utf16(str@.take(i as int)) + utf16_of(c));
            i += 1;
        }
        assert(str@.take(n as int) =~= str@);
        units.push(0);
        units
    }

    /// Keeps `str` as a wide string and returns its place in `memory`.
    pub fn from(&mut self, str: &str) -> (place: usize)
        ensures
            place == old(self).strings().len(),
            final(self).strings() == old(self).strings().push(wide(str@)),
    {
        let units = WideStringManager::to_vec(str);
        self.memory.push(units);
        assert(self.strings() =~= old(self).strings().push(wide(str@)));
        self.memory.len() - 1
    }
}

} // verus!
