use vstd::prelude::*;

verus! {

/// Maximum encoded length of the color, in bytes.
pub const MAX_COLOR_BYTES: usize = 50;

/// Maximum number of hobby entries.
pub const MAX_HOBBIES: usize = 5;

/// Maximum encoded length of one hobby entry, in bytes.
pub const MAX_HOBBY_BYTES: usize = 50;

/// A favorites record: the one value stored per owner. Strings are carried as
/// their encoded bytes, since the capacity limits count bytes.
pub struct Favorites {
    pub number: u64,
    pub color: Vec<u8>,
    pub hobbies: Vec<Vec<u8>>,
}

/// The mathematical model of a record.
#[verifier::ext_equal]
pub struct FavoritesView {
    pub number: u64,
    pub color: Seq<u8>,
    pub hobbies: Seq<Seq<u8>>,
}

impl View for Favorites {
    type V = FavoritesView;

    open spec fn view(&self) -> FavoritesView {
        FavoritesView {
            number: self.number,
            color: self.color@,
            hobbies: self.hobbies@.map_values(|h: Vec<u8>| h@),
        }
    }
}

/// The color fits in its fixed region.
pub open spec fn color_fits(c: Seq<u8>) -> bool {
    c.len() <= MAX_COLOR_BYTES
}

/// The hobby list fits: at most five entries, each within its fixed region.
pub open spec fn hobbies_fit(h: Seq<Seq<u8>>) -> bool {
    &&& h.len() <= MAX_HOBBIES
    &&& forall|i: int| 0 <= i < h.len() ==> (#[trigger] h[i]).len() <= MAX_HOBBY_BYTES
}

/// The whole record respects the declared capacities.
pub open spec fn record_fits(v: FavoritesView) -> bool {
    color_fits(v.color) && hobbies_fit(v.hobbies)
}

impl Favorites {
    /// Capacity check: true exactly when the record respects every declared
    /// maximum and so can be encoded.
    pub fn fits(&self) -> (r: bool)
        ensures
            r == record_fits(self@),
    {
        if self.color.len() > MAX_COLOR_BYTES {
            return false;
        }
        if self.hobbies.len() > MAX_HOBBIES {
            return false;
        }
        let mut i: usize = 0;
        while i < self.hobbies.len()
            invariant
                i <= self.hobbies.len(),
                forall|j: int| 0 <= j < i ==> (#[trigger] self@.hobbies[j]).len()
                    <= MAX_HOBBY_BYTES,
            decreases self.hobbies.len() - i,
        {
            if self.hobbies[i].len() > MAX_HOBBY_BYTES {
                assert(self@.hobbies[i as int].len() > MAX_HOBBY_BYTES);
                return false;
            }
            assert(self@.hobbies[i as int].len() <= MAX_HOBBY_BYTES);
            i += 1;
        }
        true
    }
}

} // verus!
