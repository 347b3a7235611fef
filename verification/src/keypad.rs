use vstd::prelude::*;

verus! {

/// Number of keys on the pad; key codes run from 0 to 15.
pub const KEY_COUNT: u8 = 16;

/// Whether bit `key` of `mask` is set.
pub open spec fn mask_has(mask: u16, key: u8) -> bool {
    key < KEY_COUNT && (mask >> key) & 1 == 1
}

/// The state of the sixteen keys, one bit each.
#[derive(Debug, Copy, Clone)]
pub struct Keypad {
    keystate: u16,
}

impl View for Keypad {
    type V = Set<u8>;

    /// The set of the key codes that are held down.
    closed spec fn view(&self) -> Set<u8> {
        Set::new(|key: u8| mask_has(self.keystate, key))
    }
}

/// Whether every member of `keys` is the code of one of the sixteen keys.
pub open spec fn keys_in_range(keys: Set<u8>) -> bool {
    forall|k: u8| keys.contains(k) ==> k < KEY_COUNT
}

/// The lowest key code in `keys`, if there is one.
#[verifier::opaque]
pub open spec fn lowest_key(keys: Set<u8>) -> Option<u8> {
    if exists|k: u8| keys.contains(k) {
        Some(choose|k: u8| keys.contains(k) && forall|j: u8| j < k ==> !keys.contains(j))
    } else {
        None
    }
}

/// `lowest_key` gives a member below which no member lies, and gives
/// nothing exactly when the set has no member.
pub proof fn lemma_lowest_key(keys: Set<u8>)
    ensures
        lowest_key(keys) is None <==> (forall|k: u8| !keys.contains(k)),
        lowest_key(keys) matches Some(k) ==> keys.contains(k) && forall|j: u8|
            j < k ==> !keys.contains(j),
{
    reveal(lowest_key);
    if exists|k: u8| keys.contains(k) {
        let w = choose|k: u8| keys.contains(k);
        lemma_least_member(keys, w, 0);
    }
}

proof fn lemma_least_member(keys: Set<u8>, w: u8, from: u8)
    requires
        keys.contains(w),
        from <= w,
        forall|j: u8| j < from ==> !keys.contains(j),
    ensures
        exists|k: u8| keys.contains(k) && forall|j: u8| j < k ==> !keys.contains(j),
    decreases w - from,
{
    if keys.contains(from) {
    } else {
        assert(from < w);
        lemma_least_member(keys, w, (from + 1) as u8);
    }
}

impl Keypad {
    /// Every key that is held has a code below sixteen.
    pub proof fn lemma_keys_in_range(&self)
        ensures
            keys_in_range(self@),
    {
    }

    /// A pad with every key released.
    pub fn new() -> (r: Self)
        ensures
            r@ == Set::<u8>::empty(),
    {
        let r = Keypad { keystate: 0 };
        proof {
            assert forall|key: u8| !mask_has(0u16, key) by {
                assert((0u16 >> key) & 1 == 0) by (bit_vector);
            }
            assert(r@ =~= Set::<u8>::empty());
        }
        r
    }

    /// Marks `key` as held down.
    pub fn key_pressed(&mut self, key: u8)
        requires
            key < KEY_COUNT,
        ensures
            final(self)@ == old(self)@.insert(key),
    {
        let before: u16 = self.keystate;
        self.keystate = before | (1u16 << key);
        proof {
            let after: u16 = self.keystate;
            assert forall|k: u8| mask_has(after, k) == (k == key || mask_has(before, k)) by {
                assert(k < 16 && key < 16 ==> (((before | (1u16 << key)) >> k) & 1 == 1 <==> (k
                    == key || (before >> k) & 1 == 1))) by (bit_vector);
            }
            assert(self@ =~= old(self)@.insert(key));
        }
    }

    /// Marks `key` as released.
    pub fn key_released(&mut self, key: u8)
        requires
            key < KEY_COUNT,
        ensures
            final(self)@ == old(self)@.remove(key),
    {
        let before: u16 = self.keystate;
        self.keystate = before & !(1u16 << key);
        proof {
            let after: u16 = self.keystate;
            assert forall|k: u8| mask_has(after, k) == (k != key && mask_has(before, k)) by {
                assert(k < 16 && key < 16 ==> (((before & !(1u16 << key)) >> k) & 1 == 1 <==> (k
                    != key && (before >> k) & 1 == 1))) by (bit_vector);
            }
            assert(self@ =~= old(self)@.remove(key));
        }
    }

    /// Releases every key.
    pub fn clear(&mut self)
        ensures
            final(self)@ == Set::<u8>::empty(),
    {
        self.keystate = 0;
        proof {
            assert forall|key: u8| !mask_has(0u16, key) by {
                assert((0u16 >> key) & 1 == 0) by (bit_vector);
            }
            assert(self@ =~= Set::<u8>::empty());
        }
    }

    /// 1 if `key` is held down, 0 if it is not; a code that names no key is never held.
    pub fn key_state(&self, key: u8) -> (r: u8)
        ensures
            r == if self@.contains(key) { 1u8 } else { 0u8 },
            key >= KEY_COUNT ==> r == 0,
    {
        if key < KEY_COUNT {
            let bit: u16 = (self.keystate >> key) & 1;
            proof {
                let m = self.keystate;
                assert((m >> key) & 1 == 0 || (m >> key) & 1 == 1) by (bit_vector);
            }
            if bit == 1 {
                1
            } else {
                0
            }
        } else {
            0
        }
    }

    /// The lowest key code that is held down, if any key is.
    pub fn first_key_pressed(&self) -> (r: Option<u8>)
        ensures
            r == lowest_key(self@),
            r is None <==> (forall|k: u8| k < KEY_COUNT ==> !self@.contains(k)),
            r matches Some(k) ==> k < KEY_COUNT && self@.contains(k) && forall|j: u8|
                j < k ==> !self@.contains(j),
    {
        let mut i: u8 = 0;
        while i < KEY_COUNT
            invariant
                i <= KEY_COUNT,
                forall|j: u8| j < i ==> !self@.contains(j),
            decreases KEY_COUNT - i,
        {
            if (self.keystate >> i) & 1 == 1 {
                proof {
                    assert(self@.contains(i));
                    lemma_lowest_key(self@);
                }
                return Some(i);
            }
            i += 1;
        }
        proof {
            lemma_lowest_key(self@);
        }
        None
    }
}

} // verus!
