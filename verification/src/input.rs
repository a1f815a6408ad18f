//! Keyboard decoding: key identities, the character layers, and the bit
//! operations that turn a 64-bit key-state mask into key events.

use vstd::prelude::*;

verus! {

/// A key identity. The position of a variant in this list is the index of the
/// bit that reports the key in a key-state mask.
#[derive(Debug, Copy, Clone, PartialEq, Eq, Structural)]
pub enum Key {
    A,
    B,
    C,
    D,
    E,
    F,
    G,
    H,
    I,
    J,
    K,
    L,
    M,
    N,
    O,
    P,
    Q,
    R,
    S,
    T,
    U,
    V,
    W,
    X,
    Y,
    Z,
    Key0,
    Key1,
    Key2,
    Key3,
    Key4,
    Key5,
    Key6,
    Key7,
    Key8,
    Key9,
    Minus,
    Plus,
    Equals,
    LBracket,
    RBracket,
    Period,
    Comma,
    Colon,
    Semicolon,
    Apostrophe,
    Backslash,
    Slash,
    Tab,
    Escape,
    Space,
    Back,
    Delete,
    Return,
    Shift,
    ArrowUp,
    ArrowDown,
    ArrowLeft,
    ArrowRight,
}

/// Number of key identities; bits of a mask from this index on name no key.
pub const KEY_COUNT: u8 = 59;

/// Whether bit `index` of `mask` is set.
pub open spec fn bit(mask: u64, index: int) -> bool {
    0 <= index < 64 && (mask >> (index as u64)) & 1 == 1
}

impl Key {
    /// The bit index of this key.
    pub open spec fn id(self) -> int {
        self as u8 as int
    }

    /// The character that the unshifted layer gives to a non-letter key.
    pub open spec fn plain_symbol(self) -> Option<char> {
        match self {
            Key::Minus => Some('-'),
            Key::Plus => Some('+'),
            Key::Equals => Some('='),
            Key::LBracket => Some('['),
            Key::RBracket => Some(']'),
            Key::Period => Some('.'),
            Key::Comma => Some(','),
            Key::Colon => Some(':'),
            Key::Semicolon => Some(';'),
            Key::Apostrophe => Some('\''),
            Key::Backslash => Some('\\'),
            Key::Slash => Some('/'),
            Key::Space => Some(' '),
            _ => None,
        }
    }

    /// The character that the shifted layer gives to a non-letter key.
    pub open spec fn shifted_symbol(self) -> Option<char> {
        match self {
            Key::Minus => Some('_'),
            Key::Equals => Some('+'),
            Key::LBracket => Some('{'),
            Key::RBracket => Some('}'),
            Key::Period => Some('>'),
            Key::Comma => Some('<'),
            Key::Semicolon => Some(':'),
            Key::Apostrophe => Some('"'),
            Key::Backslash => Some('|'),
            Key::Slash => Some('?'),
            _ => None,
        }
    }

    /// The character a key types: letters give their capital whatever the
    /// shift state, other keys go through the layer that `shift` selects.
    pub open spec fn typed_char(self, shift: bool) -> Option<char> {
        if self.id() < 26 {
            Some((self.id() + 65) as char)
        } else if shift {
            self.shifted_symbol()
        } else {
            self.plain_symbol()
        }
    }

    /// The key whose bit index is `id`; `None` where `id` names no key.
    pub open spec fn with_id(id: int) -> Option<Key> {
        if 0 <= id < KEY_COUNT {
            Key::numbered(id as u8)
        } else {
            None
        }
    }

    /// The table of keys by bit index.
    pub open spec fn numbered(id: u8) -> Option<Key> {
        match id {
            0 => Some(Key::A),
            1 => Some(Key::B),
            2 => Some(Key::C),
            3 => Some(Key::D),
            4 => Some(Key::E),
            5 => Some(Key::F),
            6 => Some(Key::G),
            7 => Some(Key::H),
            8 => Some(Key::I),
            9 => Some(Key::J),
            10 => Some(Key::K),
            11 => Some(Key::L),
            12 => Some(Key::M),
            13 => Some(Key::N),
            14 => Some(Key::O),
            15 => Some(Key::P),
            16 => Some(Key::Q),
            17 => Some(Key::R),
            18 => Some(Key::S),
            19 => Some(Key::T),
            20 => Some(Key::U),
            21 => Some(Key::V),
            22 => Some(Key::W),
            23 => Some(Key::X),
            24 => Some(Key::Y),
            25 => Some(Key::Z),
            26 => Some(Key::Key0),
            27 => Some(Key::Key1),
            28 => Some(Key::Key2),
            29 => Some(Key::Key3),
            30 => Some(Key::Key4),
            31 => Some(Key::Key5),
            32 => Some(Key::Key6),
            33 => Some(Key::Key7),
            34 => Some(Key::Key8),
            35 => Some(Key::Key9),
            36 => Some(Key::Minus),
            37 => Some(Key::Plus),
            38 => Some(Key::Equals),
            39 => Some(Key::LBracket),
            40 => Some(Key::RBracket),
            41 => Some(Key::Period),
            42 => Some(Key::Comma),
            43 => Some(Key::Colon),
            44 => Some(Key::Semicolon),
            45 => Some(Key::Apostrophe),
            46 => Some(Key::Backslash),
            47 => Some(Key::Slash),
            48 => Some(Key::Tab),
            49 => Some(Key::Escape),
            50 => Some(Key::Space),
            51 => Some(Key::Back),
            52 => Some(Key::Delete),
            53 => Some(Key::Return),
            54 => Some(Key::Shift),
            55 => Some(Key::ArrowUp),
            56 => Some(Key::ArrowDown),
            57 => Some(Key::ArrowLeft),
            58 => Some(Key::ArrowRight),
            _ => None,
        }
    }

    /// The key whose bit index is `id`, if there is one.
    pub fn from_id(id: u8) -> (key: Option<Key>)
        ensures
            key == Key::with_id(id as int),
    {
        match id {
            0 => Some(Key::A),
            1 => Some(Key::B),
            2 => Some(Key::C),
            3 => Some(Key::D),
            4 => Some(Key::E),
            5 => Some(Key::F),
            6 => Some(Key::G),
            7 => Some(Key::H),
            8 => Some(Key::I),
            9 => Some(Key::J),
            10 => Some(Key::K),
            11 => Some(Key::L),
            12 => Some(Key::M),
            13 => Some(Key::N),
            14 => Some(Key::O),
            15 => Some(Key::P),
            16 => Some(Key::Q),
            17 => Some(Key::R),
            18 => Some(Key::S),
            19 => Some(Key::T),
            20 => Some(Key::U),
            21 => Some(Key::V),
            22 => Some(Key::W),
            23 => Some(Key::X),
            24 => Some(Key::Y),
            25 => Some(Key::Z),
            26 => Some(Key::Key0),
            27 => Some(Key::Key1),
            28 => Some(Key::Key2),
            29 => Some(Key::Key3),
            30 => Some(Key::Key4),
            31 => Some(Key::Key5),
            32 => Some(Key::Key6),
            33 => Some(Key::Key7),
            34 => Some(Key::Key8),
            35 => Some(Key::Key9),
            36 => Some(Key::Minus),
            37 => Some(Key::Plus),
            38 => Some(Key::Equals),
            39 => Some(Key::LBracket),
            40 => Some(Key::RBracket),
            41 => Some(Key::Period),
            42 => Some(Key::Comma),
            43 => Some(Key::Colon),
            44 => Some(Key::Semicolon),
            45 => Some(Key::Apostrophe),
            46 => Some(Key::Backslash),
            47 => Some(Key::Slash),
            48 => Some(Key::Tab),
            49 => Some(Key::Escape),
            50 => Some(Key::Space),
            51 => Some(Key::Back),
            52 => Some(Key::Delete),
            53 => Some(Key::Return),
            54 => Some(Key::Shift),
            55 => Some(Key::ArrowUp),
            56 => Some(Key::ArrowDown),
            57 => Some(Key::ArrowLeft),
            58 => Some(Key::ArrowRight),
            _ => None,
        }
    }

    /// The character this key types under the given shift state, or `None` for
    /// a key that types nothing (arrows, escape, digits and the like).
    pub fn if_letter_get(&self, shift: bool) -> (c: Option<char>)
        ensures
            c == self.typed_char(shift),
    {
        let id: u8 = *self as u8;
        if id < 26 {
            return Some((id + 65) as char);
        }
        if shift {
            return match self {
                Key::Minus => Some('_'),
                Key::Equals => Some('+'),
                Key::LBracket => Some('{'),
                Key::RBracket => Some('}'),
                Key::Period => Some('>'),
                Key::Comma => Some('<'),
                Key::Semicolon => Some(':'),
                Key::Apostrophe => Some('"'),
                Key::Backslash => Some('|'),
                Key::Slash => Some('?'),
                _ => None,
            };
        }
        match self {
            Key::Minus => Some('-'),
            Key::Plus => Some('+'),
            Key::Equals => Some('='),
            Key::LBracket => Some('['),
            Key::RBracket => Some(']'),
            Key::Period => Some('.'),
            Key::Comma => Some(','),
            Key::Colon => Some(':'),
            Key::Semicolon => Some(';'),
            Key::Apostrophe => Some('\''),
            Key::Backslash => Some('\\'),
            Key::Slash => Some('/'),
            Key::Space => Some(' '),
            _ => None,
        }
    }
}

/// The bit indices number the keys: every key has an index below `KEY_COUNT`
/// and is the key found at that index, and an index names a key exactly when
/// it is below `KEY_COUNT`.
pub proof fn lemma_key_ids(key: Key, id: int)
    ensures
        0 <= key.id() < KEY_COUNT,
        Key::with_id(key.id()) == Some(key),
        Key::with_id(id) is Some <==> 0 <= id < KEY_COUNT,
        Key::with_id(id) == Some(key) ==> key.id() == id,
{
}

/// Whether `key` is held in the key-state mask `input`.
pub fn is_key_down(input: u64, key: Key) -> (down: bool)
    ensures
        down == bit(input, key.id()),
{
    let key_id: u8 = key as u8;
    assert((input & (1u64 << key_id)) > 0 <==> (input >> (key_id as u64)) & 1 == 1) by (bit_vector)
        requires
            key_id < 64,
    ;
    (input & (1u64 << key_id)) > 0
}

/// The mask of the bits that changed between `previous` and `new` and were
/// clear in `previous`.
pub open spec fn rising(previous: u64, new: u64) -> u64 {
    (previous ^ new) & !previous
}

/// The bits that went from released in `previous` to held in `new`: the keys
/// pressed on this tick. Keys that stay held, and keys that are released, are
/// not reported.
pub fn edge_events(previous: u64, new: u64) -> (pressed: u64)
    ensures
        pressed == rising(previous, new),
        forall|i: int| bit(pressed, i) == (bit(new, i) && !bit(previous, i)),
{
    let changed: u64 = previous ^ new;
    let pressed: u64 = changed & !previous;
    assert forall|i: int| bit(pressed, i) == (bit(new, i) && !bit(previous, i)) by {
        if 0 <= i < 64 {
            let k = i as u64;
            assert(((((previous ^ new) & !previous) >> k) & 1 == 1) == (((new >> k) & 1 == 1) && !((
            previous >> k) & 1 == 1))) by (bit_vector)
                requires
                    k < 64,
            ;
        }
    }
    pressed
}

/// The indices below `bound` of the bits set in `mask`, in ascending order.
pub open spec fn set_bits_below(mask: u64, bound: nat) -> Seq<usize>
    decreases bound,
{
    if bound == 0 {
        Seq::empty()
    } else {
        let lower = set_bits_below(mask, (bound - 1) as nat);
        if bit(mask, bound - 1) {
            lower.push((bound - 1) as usize)
        } else {
            lower
        }
    }
}

/// The indices of the bits set in `mask`, in ascending order.
pub open spec fn set_bits(mask: u64) -> Seq<usize> {
    set_bits_below(mask, 64)
}

/// The keys that a sequence of bit indices names, in the same order; an index
/// that names no key is passed over.
pub open spec fn keys_of(bits: Seq<usize>) -> Seq<Key>
    decreases bits.len(),
{
    if bits.len() == 0 {
        Seq::empty()
    } else {
        let before = keys_of(bits.drop_last());
        match Key::with_id(bits.last() as int) {
            Some(key) => before.push(key),
            None => before,
        }
    }
}

/// The keys held in `mask`, in ascending order of their bit indices.
pub open spec fn pressed_keys(mask: u64) -> Seq<Key> {
    keys_of(set_bits(mask))
}

/// Where no bit of `mask` is set from `low` up to `high`, the set bits below
/// `high` are those below `low`.
proof fn lemma_clear_range(mask: u64, low: nat, high: nat)
    requires
        low <= high,
        forall|i: int| low <= i < high ==> !bit(mask, i),
    ensures
        set_bits_below(mask, high) == set_bits_below(mask, low),
    decreases high - low,
{
    if low < high {
        lemma_clear_range(mask, low, (high - 1) as nat);
    }
}

/// Clearing the lowest set bit of a mask, found at index `lowest`, leaves
/// every other bit as it was.
proof fn lemma_clear_lowest(mask: u64, lowest: u32)
    requires
        mask != 0,
        lowest == mask.trailing_zeros(),
    ensures
        lowest < 64,
        bit(mask, lowest as int),
        forall|i: int| 0 <= i < lowest ==> !bit(mask, i),
        forall|i: int|
            bit(mask ^ (mask & 0u64.wrapping_sub(mask)), i) == (bit(mask, i) && i != lowest),
{
    vstd::std_specs::bits::axiom_u64_trailing_zeros(mask);
    let z = lowest as u64;
    let gap = (64 - z) as u64;
    let next = mask ^ (mask & 0u64.wrapping_sub(mask));
    assert(0u64.wrapping_sub(mask) == (0x1_0000_0000_0000_0000 - mask) as u64);
    assert(mask << gap == 0);
    assert forall|i: int| 0 <= i < lowest implies !bit(mask, i) by {
        let k = i as u64;
        assert((mask >> k) & 1 == 0);
    }
    assert forall|i: int| bit(next, i) == (bit(mask, i) && i != lowest) by {
        if 0 <= i < 64 {
            let k = i as u64;
            assert(((mask ^ (mask & ((0x1_0000_0000_0000_0000 - mask) as u64))) >> k) & 1 == (if k
                == z {
                0
            } else {
                (mask >> k) & 1
            })) by (bit_vector)
                requires
                    k < 64,
                    z < 64,
                    gap == 64 - z,
                    mask != 0,
                    (mask >> z) & 1 == 1,
                    mask << gap == 0,
            ;
        }
    }
}

/// The indices of the bits set in `bitset`, lowest first. Each round takes the
/// lowest set bit out of the mask.
pub fn iter_set_bits(bitset: u64) -> (bits: Vec<usize>)
    ensures
        bits@ == set_bits(bitset),
{
    let mut bits: Vec<usize> = Vec::new();
    let mut rest: u64 = bitset;
    let ghost mut done: nat = 0;
    while rest != 0
        invariant
            done <= 64,
            bits@ == set_bits_below(bitset, done),
            forall|i: int| bit(rest, i) == (bit(bitset, i) && i >= done),
        decreases 64 - done,
    {
        let t: u64 = rest & 0u64.wrapping_sub(rest);
        let index: u32 = rest.trailing_zeros();
        proof {
            lemma_clear_lowest(rest, index);
            lemma_clear_range(bitset, done, index as nat);
        }
        bits.push(index as usize);
        rest ^= t;
        proof {
            done = (index + 1) as nat;
        }
    }
    proof {
        assert(forall|i: int| !bit(0u64, i)) by {
            assert(forall|k: u64| k < 64 ==> (0u64 >> k) & 1 != 1) by (bit_vector);
        }
        lemma_clear_range(bitset, done, 64);
    }
    bits
}

/// The keys held in `input`, in ascending order of their bit indices. A set
/// bit that names no key yields nothing.
pub fn input_to_vec(input: u64) -> (keys: Vec<Key>)
    ensures
        keys@ == pressed_keys(input),
{
    let bits = iter_set_bits(input);
    let mut keys: Vec<Key> = Vec::new();
    let mut n: usize = 0;
    while n < bits.len()
        invariant
            n <= bits.len(),
            keys@ == keys_of(bits@.take(n as int)),
        decreases bits.len() - n,
    {
        let index: usize = bits[n];
        assert(bits@.take(n + 1).drop_last() == bits@.take(n as int));
        if index < KEY_COUNT as usize {
            match Key::from_id(index as u8) {
                Some(key) => {
                    keys.push(key);
                },
                None => {},
            }
        }
        n += 1;
    }
    assert(bits@.take(n as int) == bits@);
    keys
}

/// The set bits come in strictly ascending order, each is the index of a bit
/// of the mask, and an index is among them exactly when its bit is set.
pub proof fn lemma_set_bits(mask: u64)
    ensures
        forall|i: int, j: int|
            0 <= i < j < set_bits(mask).len() ==> set_bits(mask)[i] < set_bits(mask)[j],
        forall|i: int| 0 <= i < set_bits(mask).len() ==> bit(mask, set_bits(mask)[i] as int),
        forall|index: usize| set_bits(mask).contains(index) <==> bit(mask, index as int),
{
    lemma_set_bits_below(mask, 64);
}

/// The set bits below `bound`: ascending, each set and below `bound`, and
/// holding exactly the indices below `bound` whose bit is set.
proof fn lemma_set_bits_below(mask: u64, bound: nat)
    requires
        bound <= 64,
    ensures
        forall|i: int, j: int|
            0 <= i < j < set_bits_below(mask, bound).len() ==> set_bits_below(mask, bound)[i]
                < set_bits_below(mask, bound)[j],
        forall|i: int|
            0 <= i < set_bits_below(mask, bound).len() ==> bit(
                mask,
                set_bits_below(mask, bound)[i] as int,
            ) && set_bits_below(mask, bound)[i] < bound,
        forall|index: usize|
            set_bits_below(mask, bound).contains(index) <==> (bit(mask, index as int) && index
                < bound),
    decreases bound,
{
    let bits = set_bits_below(mask, bound);
    if bound > 0 {
        let below = (bound - 1) as nat;
        let lower = set_bits_below(mask, below);
        lemma_set_bits_below(mask, below);
        assert forall|index: usize| bits.contains(index) <==> (bit(mask, index as int) && index
            < bound) by {
            if bits.contains(index) {
                let at = choose|at: int| 0 <= at < bits.len() && bits[at] == index;
                if at < lower.len() {
                    assert(lower[at] == index);
                    assert(lower.contains(index));
                }
            }
            if bit(mask, index as int) && index < bound {
                if index == below {
                    assert(bits[lower.len() as int] == index);
                } else {
                    assert(lower.contains(index));
                    let at = choose|at: int| 0 <= at < lower.len() && lower[at] == index;
                    assert(bits[at] == index);
                }
            }
        }
    }
}

/// The held keys come in strictly ascending order of bit index, and a key is
/// among them exactly when its bit is set.
pub proof fn lemma_pressed_keys(mask: u64)
    ensures
        forall|i: int, j: int|
            0 <= i < j < pressed_keys(mask).len() ==> pressed_keys(mask)[i].id() < pressed_keys(
                mask,
            )[j].id(),
        forall|key: Key| pressed_keys(mask).contains(key) <==> bit(mask, key.id()),
{
    lemma_keys_below(mask, 64);
    assert forall|key: Key| pressed_keys(mask).contains(key) <==> bit(mask, key.id()) by {
        lemma_key_ids(key, 0);
    }
}

/// The keys named by the set bits below `bound`: ascending, each below
/// `bound`, and holding exactly the keys below `bound` whose bit is set.
proof fn lemma_keys_below(mask: u64, bound: nat)
    requires
        bound <= 64,
    ensures
        forall|i: int, j: int|
            #![trigger keys_of(set_bits_below(mask, bound))[i], keys_of(set_bits_below(mask, bound))[j]]
            0 <= i < j < keys_of(set_bits_below(mask, bound)).len() ==> keys_of(
                set_bits_below(mask, bound),
            )[i].id() < keys_of(set_bits_below(mask, bound))[j].id(),
        forall|i: int|
            0 <= i < keys_of(set_bits_below(mask, bound)).len() ==> #[trigger] keys_of(
                set_bits_below(mask, bound),
            )[i].id() < bound,
        forall|key: Key|
            #[trigger] keys_of(set_bits_below(mask, bound)).contains(key) <==> (bit(mask, key.id())
                && key.id() < bound),
    decreases bound,
{
    let keys = keys_of(set_bits_below(mask, bound));
    if bound == 0 {
        assert(set_bits_below(mask, bound) =~= Seq::empty());
    } else {
        let below = (bound - 1) as nat;
        let lower = keys_of(set_bits_below(mask, below));
        lemma_keys_below(mask, below);
        if bit(mask, below as int) {
            assert(set_bits_below(mask, bound).drop_last() == set_bits_below(mask, below));
            match Key::with_id(below as int) {
                Some(added) => {
                    lemma_key_ids(added, below as int);
                    assert(keys == lower.push(added));
                    assert forall|key: Key| #[trigger]
                        keys.contains(key) <==> (bit(mask, key.id()) && key.id() < bound) by {
                        lemma_key_ids(key, below as int);
                        if keys.contains(key) {
                            let at = choose|at: int| 0 <= at < keys.len() && keys[at] == key;
                            if at < lower.len() {
                                assert(lower[at] == key);
                                assert(lower.contains(key));
                            }
                        }
                        if bit(mask, key.id()) && key.id() < bound {
                            if key.id() == below {
                                assert(keys[lower.len() as int] == key);
                            } else {
                                assert(lower.contains(key));
                                let at = choose|at: int| 0 <= at < lower.len() && lower[at] == key;
                                assert(keys[at] == key);
                            }
                        }
                    }
                },
                None => {
                    assert(keys == lower);
                    assert forall|key: Key| #[trigger]
                        keys.contains(key) <==> (bit(mask, key.id()) && key.id() < bound) by {
                        lemma_key_ids(key, below as int);
                    }
                },
            }
        } else {
            assert(keys == lower);
        }
    }
}

} // verus!
