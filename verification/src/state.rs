use vstd::prelude::*;

use crate::codec::{encode, fits_wire, spec_canonical_size, spec_max_record};
use crate::errors::{FavoritesError, ProcessError};
use crate::MAX_ITEM_LEN;
use crate::MAX_SLOTS;

verus! {

/// The favorites record: an ordered sequence of slots, each either absent
/// or holding the bytes of one short entry.
#[derive(Debug)]
pub struct Favorites {
    pub data: Vec<Option<Vec<u8>>>,
}

impl View for Favorites {
    type V = Seq<Option<Seq<u8>>>;

    open spec fn view(&self) -> Seq<Option<Seq<u8>>> {
        self.data.deep_view()
    }
}

/// A present entry fits when its byte length is at most `MAX_ITEM_LEN`;
/// an absent entry always fits.
pub open spec fn item_fits(item: Option<Seq<u8>>) -> bool {
    match item {
        Option::None => true,
        Option::Some(s) => s.len() <= MAX_ITEM_LEN,
    }
}

/// The bounds a record must satisfy before it may be persisted, with the
/// failure reported for the first violated bound: no entry at all, more
/// entries than `MAX_SLOTS`, or some present entry longer than
/// `MAX_ITEM_LEN` bytes.
pub open spec fn spec_validate(items: Seq<Option<Seq<u8>>>) -> Result<(), FavoritesError> {
    if items.len() == 0 {
        Err(FavoritesError::InvalidLength)
    } else if items.len() > MAX_SLOTS {
        Err(FavoritesError::ExceedsMaxLength)
    } else if exists|i: int| 0 <= i < items.len() && !item_fits(items[i]) {
        Err(FavoritesError::ExceedsIndMaxLength)
    } else {
        Ok(())
    }
}

impl Favorites {
    /// Checks the persistence bounds of this record: the entry count must lie
    /// in `[1, MAX_SLOTS]` and every present entry must be at most
    /// `MAX_ITEM_LEN` bytes. Returns exactly the failure that
    /// [`spec_validate`] assigns, and succeeds exactly when it does.
    pub fn validate(&self) -> (r: Result<(), ProcessError>)
        ensures
            (match spec_validate(self@) {
                Ok(()) => r == Ok::<(), ProcessError>(()),
                Err(e) => r == Err::<(), ProcessError>(ProcessError::Favorites(e)),
            }),
    {
        if self.data.len() == 0 {
            Err(ProcessError::Favorites(FavoritesError::InvalidLength))
        } else if self.data.len() > MAX_SLOTS {
            Err(ProcessError::Favorites(FavoritesError::ExceedsMaxLength))
        } else {
            let n = self.data.len();
            for i in 0..n
                invariant
                    n == self.data.len(),
                    0 < n <= MAX_SLOTS,
                    forall|j: int| 0 <= j < i ==> item_fits(self@[j]),
            {
                match &self.data[i] {
                    Option::Some(entry) => {
                        if entry.len() > MAX_ITEM_LEN {
                            proof {
                                let j = i as int;
                                assert(self@.len() == self.data@.len());
                                assert(self@[j] == self.data@[j].deep_view());
                                assert(!item_fits(self@[j]));
                                assert(exists|k: int|
                                    0 <= k < self@.len() && !item_fits(self@[k]));
                            }
                            return Err(ProcessError::Favorites(FavoritesError::ExceedsIndMaxLength));
                        }
                        assert(self@[i as int] == self.data@[i as int].deep_view());
                    },
                    Option::None => {
                        assert(self@[i as int] == self.data@[i as int].deep_view());
                    },
                }
            }
            Ok(())
        }
    }

    /// The canonical slot size, computed by encoding the reference record
    /// with every entry present and filled to `MAX_ITEM_LEN` bytes. A slot
    /// is allocated with exactly this many bytes, and every validated
    /// record encodes into at most this many.
    pub fn get_size() -> (r: Result<usize, ProcessError>)
        ensures
            (r matches Ok(n) && n == spec_canonical_size()),
            spec_canonical_size() == 79,
    {
        let mut data: Vec<Option<Vec<u8>>> = Vec::new();
        let mut k: usize = 0;
        while k < MAX_SLOTS
            invariant
                k <= MAX_SLOTS,
                data@.len() == k,
                forall|i: int| 0 <= i < k ==> #[trigger] data.deep_view()[i]
                    == spec_max_record()[i],
            decreases MAX_SLOTS - k,
        {
            let word = Self::max_item();
            let ghost wv = word@;
            let ghost prev_seq = data@;
            let ghost prev_dv = data.deep_view();
            data.push(Some(word));
            proof {
                assert forall|i: int| 0 <= i < k + 1 implies #[trigger] data.deep_view()[i]
                    == spec_max_record()[i] by {
                    assert(data.deep_view()[i] == data@[i].deep_view());
                    if i == k as int {
                        let inner = data@[i]->Some_0;
                        assert(data@[i] is Some && inner@ == wv);
                        assert(inner.deep_view() =~= Seq::new(MAX_ITEM_LEN as nat, |j: int| 0u8));
                        assert(spec_max_record()[i] == Option::Some(
                            Seq::new(MAX_ITEM_LEN as nat, |j: int| 0u8),
                        ));
                    } else {
                        assert(data@[i] == prev_seq[i]);
                        assert(prev_dv[i] == prev_seq[i].deep_view());
                    }
                }
            }
            k += 1;
        }
        let favorites = Favorites { data };
        proof {
            assert(favorites@ =~= spec_max_record());
            crate::codec::lemma_canonical_size_value();
        }
        match encode(&favorites) {
            Ok(bytes) => Ok(bytes.len()),
            Err(e) => {
                proof {
                    assert(fits_wire(favorites@));
                    assert(false);
                }
                Err(e)
            },
        }
    }

    /// One reference entry of exactly `MAX_ITEM_LEN` bytes.
    fn max_item() -> (r: Vec<u8>)
        ensures
            r@ == Seq::new(MAX_ITEM_LEN as nat, |j: int| 0u8),
    {
        let mut w: Vec<u8> = Vec::new();
        let mut j: usize = 0;
        while j < MAX_ITEM_LEN
            invariant
                j <= MAX_ITEM_LEN,
                w@.len() == j,
                forall|t: int| 0 <= t < j ==> w@[t] == 0u8,
            decreases MAX_ITEM_LEN - j,
        {
            w.push(0u8);
            j += 1;
        }
        proof {
            assert(w@ =~= Seq::new(MAX_ITEM_LEN as nat, |t: int| 0u8));
        }
        w
    }

    /// A fresh record of `MAX_SLOTS` absent entries.
    pub fn new() -> (r: Self)
        ensures
            r@.len() == MAX_SLOTS,
            forall|i: int| 0 <= i < MAX_SLOTS ==> r@[i] is None,
    {
        let mut v: Vec<Option<Vec<u8>>> = Vec::new();
        let mut k: usize = 0;
        while k < MAX_SLOTS
            invariant
                k <= MAX_SLOTS,
                v@.len() == k,
                forall|i: int| 0 <= i < k ==> v@[i] is None,
            decreases MAX_SLOTS - k,
        {
            v.push(None);
            k += 1;
        }
        proof {
            assert forall|i: int| 0 <= i < MAX_SLOTS implies v.deep_view()[i] is None by {
                assert(v.deep_view()[i] == v@[i].deep_view());
            }
        }
        Favorites { data: v }
    }
}

} // verus!
