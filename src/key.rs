use vstd::prelude::*;
use crate::chroma::ChromaProfile;

verus! {

/// Relative weight of each scale degree above the tonic in a major key, times 100.
pub open spec fn major_weight(d: int) -> int {
    if d == 0 {
        635
    } else if d == 1 {
        223
    } else if d == 2 {
        348
    } else if d == 3 {
        233
    } else if d == 4 {
        438
    } else if d == 5 {
        409
    } else if d == 6 {
        252
    } else if d == 7 {
        519
    } else if d == 8 {
        239
    } else if d == 9 {
        366
    } else if d == 10 {
        229
    } else {
        288
    }
}

/// Relative weight of each scale degree above the tonic in a minor key, times 100.
pub open spec fn minor_weight(d: int) -> int {
    if d == 0 {
        633
    } else if d == 1 {
        268
    } else if d == 2 {
        352
    } else if d == 3 {
        538
    } else if d == 4 {
        260
    } else if d == 5 {
        353
    } else if d == 6 {
        254
    } else if d == 7 {
        475
    } else if d == 8 {
        398
    } else if d == 9 {
        269
    } else if d == 10 {
        334
    } else {
        317
    }
}

/// Weight of scale degree `d` (0..12) in the given mode, times 100.
pub open spec fn template_weight(major: bool, d: int) -> int {
    if major {
        major_weight(d)
    } else {
        minor_weight(d)
    }
}

fn weight(major: bool, d: usize) -> (r: u64)
    requires
        d < 12,
    ensures
        r == template_weight(major, d as int),
{
    let table: [u64; 12] = if major {
        [635, 223, 348, 233, 438, 409, 252, 519, 239, 366, 229, 288]
    } else {
        [633, 268, 352, 538, 260, 353, 254, 475, 398, 269, 334, 317]
    };
    let r = table[d];
    proof {
        if major {
            assert(table@ =~= seq![635u64, 223, 348, 233, 438, 409, 252, 519, 239, 366, 229, 288]);
        } else {
            assert(table@ =~= seq![633u64, 268, 352, 538, 260, 353, 254, 475, 398, 269, 334, 317]);
        }
    }
    r
}

/// Pitch class of the tonic of key `idx` in the canonical order: 0..12 are
/// the major keys around the circle of fifths from C, 12..24 the minor keys
/// around it from A minor.
pub open spec fn key_root(idx: int) -> int {
    if idx < 12 {
        (7 * idx) % 12
    } else {
        (9 + 7 * (idx - 12)) % 12
    }
}

/// Index in the canonical order of the key with the given tonic and mode.
pub open spec fn key_index_of(root: int, major: bool) -> int {
    if major {
        (7 * root) % 12
    } else {
        12 + (7 * root + 9) % 12
    }
}

/// Number on the Camelot wheel of key `idx`: C major is 8B and each step
/// around the circle of fifths adds one (12 wraps to 1); a minor key shares
/// its number with its relative major.
pub open spec fn camelot_number(idx: int) -> int {
    ((idx % 12) + 7) % 12 + 1
}

/// The key with the given Camelot number (1..=12) and mode.
pub open spec fn camelot_slot(n: int, major: bool) -> int {
    if major {
        (n + 4) % 12
    } else {
        12 + (n + 4) % 12
    }
}

/// The decimal digit `d`.
pub open spec fn digit_char(d: int) -> char {
    if d == 0 {
        '0'
    } else if d == 1 {
        '1'
    } else if d == 2 {
        '2'
    } else if d == 3 {
        '3'
    } else if d == 4 {
        '4'
    } else if d == 5 {
        '5'
    } else if d == 6 {
        '6'
    } else if d == 7 {
        '7'
    } else if d == 8 {
        '8'
    } else {
        '9'
    }
}

/// Decimal text of a number from 1 to 12.
pub open spec fn decimal(n: int) -> Seq<char> {
    if n < 10 {
        seq![digit_char(n)]
    } else {
        seq!['1', digit_char(n - 10)]
    }
}

/// Camelot code of key `idx`: its number, then B for a major and A for a minor key.
pub open spec fn camelot_text(idx: int) -> Seq<char> {
    decimal(camelot_number(idx)) + seq![if idx < 12 {
        'B'
    } else {
        'A'
    }]
}

/// Spelling of pitch class `pc` (0 = C) as a key's tonic: flats for the major
/// keys on black keys (E-flat, A-flat, B-flat), sharps otherwise.
pub open spec fn note_name(pc: int, major: bool) -> Seq<char> {
    if major {
        if pc == 0 {
            seq!['C']
        } else if pc == 1 {
            seq!['C', '#']
        } else if pc == 2 {
            seq!['D']
        } else if pc == 3 {
            seq!['E', 'b']
        } else if pc == 4 {
            seq!['E']
        } else if pc == 5 {
            seq!['F']
        } else if pc == 6 {
            seq!['F', '#']
        } else if pc == 7 {
            seq!['G']
        } else if pc == 8 {
            seq!['A', 'b']
        } else if pc == 9 {
            seq!['A']
        } else if pc == 10 {
            seq!['B', 'b']
        } else {
            seq!['B']
        }
    } else {
        if pc == 0 {
            seq!['C']
        } else if pc == 1 {
            seq!['C', '#']
        } else if pc == 2 {
            seq!['D']
        } else if pc == 3 {
            seq!['D', '#']
        } else if pc == 4 {
            seq!['E']
        } else if pc == 5 {
            seq!['F']
        } else if pc == 6 {
            seq!['F', '#']
        } else if pc == 7 {
            seq!['G']
        } else if pc == 8 {
            seq!['G', '#']
        } else if pc == 9 {
            seq!['A']
        } else if pc == 10 {
            seq!['A', '#']
        } else {
            seq!['B']
        }
    }
}

/// Name of key `idx`: the spelling of its tonic, followed by m for a minor key.
pub open spec fn key_name_text(idx: int) -> Seq<char> {
    if idx < 12 {
        note_name(key_root(idx), true)
    } else {
        note_name(key_root(idx), false) + seq!['m']
    }
}

/// Standard name of key `idx` (0..24), such as "C#" or "Am".
pub fn key_name(idx: usize) -> (r: String)
    requires
        idx < 24,
    ensures
        r@ == key_name_text(idx as int),
{
    match idx {
        0 => {
            proof {
                reveal_strlit("C");
            }
            "C".to_owned()
        },
        1 => {
            proof {
                reveal_strlit("G");
            }
            "G".to_owned()
        },
        2 => {
            proof {
                reveal_strlit("D");
            }
            "D".to_owned()
        },
        3 => {
            proof {
                reveal_strlit("A");
            }
            "A".to_owned()
        },
        4 => {
            proof {
                reveal_strlit("E");
            }
            "E".to_owned()
        },
        5 => {
            proof {
                reveal_strlit("B");
            }
            "B".to_owned()
        },
        6 => {
            proof {
                reveal_strlit("F#");
            }
            "F#".to_owned()
        },
        7 => {
            proof {
                reveal_strlit("C#");
            }
            "C#".to_owned()
        },
        8 => {
            proof {
                reveal_strlit("Ab");
            }
            "Ab".to_owned()
        },
        9 => {
            proof {
                reveal_strlit("Eb");
            }
            "Eb".to_owned()
        },
        10 => {
            proof {
                reveal_strlit("Bb");
            }
            "Bb".to_owned()
        },
        11 => {
            proof {
                reveal_strlit("F");
            }
            "F".to_owned()
        },
        12 => {
            proof {
                reveal_strlit("Am");
            }
            "Am".to_owned()
        },
        13 => {
            proof {
                reveal_strlit("Em");
            }
            "Em".to_owned()
        },
        14 => {
            proof {
                reveal_strlit("Bm");
            }
            "Bm".to_owned()
        },
        15 => {
            proof {
                reveal_strlit("F#m");
            }
            "F#m".to_owned()
        },
        16 => {
            proof {
                reveal_strlit("C#m");
            }
            "C#m".to_owned()
        },
        17 => {
            proof {
                reveal_strlit("G#m");
            }
            "G#m".to_owned()
        },
        18 => {
            proof {
                reveal_strlit("D#m");
            }
            "D#m".to_owned()
        },
        19 => {
            proof {
                reveal_strlit("A#m");
            }
            "A#m".to_owned()
        },
        20 => {
            proof {
                reveal_strlit("Fm");
            }
            "Fm".to_owned()
        },
        21 => {
            proof {
                reveal_strlit("Cm");
            }
            "Cm".to_owned()
        },
        22 => {
            proof {
                reveal_strlit("Gm");
            }
            "Gm".to_owned()
        },
        _ => {
            proof {
                reveal_strlit("Dm");
            }
            "Dm".to_owned()
        },
    }
}

/// Camelot code of key `idx` (0..24), such as "8B" or "8A".
pub fn camelot_code(idx: usize) -> (r: String)
    requires
        idx < 24,
    ensures
        r@ == camelot_text(idx as int),
{
    match idx {
        0 => {
            proof {
                reveal_strlit("8B");
            }
            "8B".to_owned()
        },
        1 => {
            proof {
                reveal_strlit("9B");
            }
            "9B".to_owned()
        },
        2 => {
            proof {
                reveal_strlit("10B");
            }
            "10B".to_owned()
        },
        3 => {
            proof {
                reveal_strlit("11B");
            }
            "11B".to_owned()
        },
        4 => {
            proof {
                reveal_strlit("12B");
            }
            "12B".to_owned()
        },
        5 => {
            proof {
                reveal_strlit("1B");
            }
            "1B".to_owned()
        },
        6 => {
            proof {
                reveal_strlit("2B");
            }
            "2B".to_owned()
        },
        7 => {
            proof {
                reveal_strlit("3B");
            }
            "3B".to_owned()
        },
        8 => {
            proof {
                reveal_strlit("4B");
            }
            "4B".to_owned()
        },
        9 => {
            proof {
                reveal_strlit("5B");
            }
            "5B".to_owned()
        },
        10 => {
            proof {
                reveal_strlit("6B");
            }
            "6B".to_owned()
        },
        11 => {
            proof {
                reveal_strlit("7B");
            }
            "7B".to_owned()
        },
        12 => {
            proof {
                reveal_strlit("8A");
            }
            "8A".to_owned()
        },
        13 => {
            proof {
                reveal_strlit("9A");
            }
            "9A".to_owned()
        },
        14 => {
            proof {
                reveal_strlit("10A");
            }
            "10A".to_owned()
        },
        15 => {
            proof {
                reveal_strlit("11A");
            }
            "11A".to_owned()
        },
        16 => {
            proof {
                reveal_strlit("12A");
            }
            "12A".to_owned()
        },
        17 => {
            proof {
                reveal_strlit("1A");
            }
            "1A".to_owned()
        },
        18 => {
            proof {
                reveal_strlit("2A");
            }
            "2A".to_owned()
        },
        19 => {
            proof {
                reveal_strlit("3A");
            }
            "3A".to_owned()
        },
        20 => {
            proof {
                reveal_strlit("4A");
            }
            "4A".to_owned()
        },
        21 => {
            proof {
                reveal_strlit("5A");
            }
            "5A".to_owned()
        },
        22 => {
            proof {
                reveal_strlit("6A");
            }
            "6A".to_owned()
        },
        _ => {
            proof {
                reveal_strlit("7A");
            }
            "7A".to_owned()
        },
    }
}

/// Correlation of the first `upto` classes of a chroma profile with the
/// template of the given mode rotated to `root`, times 100.
pub open spec fn key_score(e: Seq<u64>, root: int, major: bool, upto: int) -> int
    decreases upto,
{
    if upto <= 0 {
        0
    } else {
        key_score(e, root, major, upto - 1) + e[upto - 1] * template_weight(major, (upto - 1 + 12 - root) % 12)
    }
}

/// Score of the `c`-th tested key: 0..12 are the major keys on roots C..B,
/// 12..24 the minor ones.
pub open spec fn candidate_score(e: Seq<u64>, c: int) -> int {
    key_score(e, c % 12, c < 12, 12)
}

/// The first of the tested keys `0..upto` with the highest positive score,
/// and that score; `(0, 0)` where none scores above zero.
pub open spec fn best_candidate(e: Seq<u64>, upto: int) -> (int, int)
    decreases upto,
{
    if upto <= 0 {
        (0, 0)
    } else {
        let (bc, bs) = best_candidate(e, upto - 1);
        let s = candidate_score(e, upto - 1);
        if s > bs {
            (upto - 1, s)
        } else {
            (bc, bs)
        }
    }
}

/// `clamp(score / 10, 0, 1)` in thousandths, for a score over the normalized
/// profile: the raw score (times 100) divided by the profile's total.
pub open spec fn confidence_of(score: int, total: int) -> int {
    if total == 0 {
        0
    } else if score / total > 1000 {
        1000
    } else {
        score / total
    }
}

/// A detected key.
#[derive(Debug)]
pub struct MusicalKey {
    /// Standard name, such as "C#" or "Am".
    pub key_name: String,
    /// Camelot code, such as "8A".
    pub camelot: String,
    /// Confidence in thousandths (0..=1000).
    pub confidence_permille: u64,
    /// Whether the key is major.
    pub is_major: bool,
    /// Index in the canonical order of the 24 keys.
    pub key_index: usize,
}

proof fn lemma_key_score_bound(e: Seq<u64>, root: int, major: bool, upto: int)
    requires
        0 <= upto <= e.len(),
        0 <= root < 12,
    ensures
        0 <= key_score(e, root, major, upto) <= upto * 0x1_0000_0000_0000_0000 * 1000,
    decreases upto,
{
    if upto > 0 {
        lemma_key_score_bound(e, root, major, upto - 1);
        let w = template_weight(major, (upto - 1 + 12 - root) % 12);
        assert(0 <= w <= 1000);
        assert(e[upto - 1] * w <= 0x1_0000_0000_0000_0000 * 1000) by (nonlinear_arith)
            requires 0 <= e[upto - 1] < 0x1_0000_0000_0000_0000, 0 <= w <= 1000;
        assert(0 <= e[upto - 1] * w) by (nonlinear_arith)
            requires 0 <= e[upto - 1], 0 <= w;
    }
}

/// Correlation (times 100) of a chroma profile with the template of the
/// given mode rotated so that its tonic lies on `root`.
pub fn template_correlation(profile: &ChromaProfile, major: bool, root: usize) -> (r: u128)
    requires
        profile.wf(),
        root < 12,
    ensures
        r == key_score(profile.energy@, root as int, major, 12),
{
    let ghost e = profile.energy@;
    let mut sc: u128 = 0;
    let mut i: usize = 0;
    while i < 12
        invariant
            e == profile.energy@,
            e.len() == 12,
            i <= 12,
            root < 12,
            sc == key_score(e, root as int, major, i as int),
        decreases 12 - i,
    {
        proof {
            lemma_key_score_bound(e, root as int, major, i as int);
            lemma_key_score_bound(e, root as int, major, i + 1);
            assert(i * 0x1_0000_0000_0000_0000 * 1000 <= 12 * 0x1_0000_0000_0000_0000 * 1000) by (nonlinear_arith)
                requires i <= 12;
            assert((i + 1) * 0x1_0000_0000_0000_0000 * 1000 <= 12 * 0x1_0000_0000_0000_0000 * 1000) by (nonlinear_arith)
                requires i < 12;
        }
        let w = weight(major, (i + 12 - root) % 12);
        sc = sc + (profile.energy[i] as u128) * (w as u128);
        i = i + 1;
    }
    sc
}

/// Correlates the profile with both templates at every root and names the best key.
pub fn detect_key(profile: &ChromaProfile) -> (k: MusicalKey)
    requires
        profile.wf(),
    ensures
        ({
            let (c, s) = best_candidate(profile.energy@, 24);
            &&& k.is_major == (c < 12)
            &&& k.key_index == key_index_of(c % 12, c < 12)
            &&& k.confidence_permille == confidence_of(s, profile.total as int)
        }),
        k.key_index < 24,
        k.is_major <==> k.key_index < 12,
        k.key_name@ == key_name_text(k.key_index as int),
        k.camelot@ == camelot_text(k.key_index as int),
        k.confidence_permille <= 1000,
{
    let ghost e = profile.energy@;
    let mut best_c: usize = 0;
    let mut best_s: u128 = 0;
    let mut c: usize = 0;
    while c < 24
        invariant
            e == profile.energy@,
            e.len() == 12,
            profile.wf(),
            c <= 24,
            (best_c as int, best_s as int) == best_candidate(e, c as int),
        decreases 24 - c,
    {
        let sc = template_correlation(profile, c < 12, c % 12);
        if sc > best_s {
            best_s = sc;
            best_c = c;
        }
        c = c + 1;
    }
    let root = best_c % 12;
    let is_major = best_c < 12;
    let key_index: usize = if is_major { (7 * root) % 12 } else { 12 + (7 * root + 9) % 12 };
    let total = profile.total;
    let confidence_permille: u64 = if total == 0 {
        0
    } else {
        let q = best_s / (total as u128);
        if q > 1000 { 1000 } else { q as u64 }
    };
    MusicalKey {
        key_name: key_name(key_index),
        camelot: camelot_code(key_index),
        confidence_permille,
        is_major,
        key_index,
    }
}

/// Value of a decimal digit character.
pub open spec fn digit_value(ch: char) -> int {
    if ch == '0' {
        0
    } else if ch == '1' {
        1
    } else if ch == '2' {
        2
    } else if ch == '3' {
        3
    } else if ch == '4' {
        4
    } else if ch == '5' {
        5
    } else if ch == '6' {
        6
    } else if ch == '7' {
        7
    } else if ch == '8' {
        8
    } else {
        9
    }
}

proof fn lemma_decimal_injective(n: int, m: int)
    requires
        1 <= n <= 12,
        1 <= m <= 12,
        decimal(n) == decimal(m),
    ensures
        n == m,
{
    assert(decimal(n).len() == decimal(m).len());
    assert(decimal(n).len() == if n < 10 { 1int } else { 2int });
    assert(decimal(m).len() == if m < 10 { 1int } else { 2int });
    if n < 10 {
        assert(decimal(n)[0] == decimal(m)[0]);
        assert(decimal(n)[0] == digit_char(n) && decimal(m)[0] == digit_char(m));
        assert(digit_value(digit_char(n)) == n);
        assert(digit_value(digit_char(m)) == m);
    } else {
        assert(decimal(n)[1] == decimal(m)[1]);
        assert(decimal(n)[1] == digit_char(n - 10) && decimal(m)[1] == digit_char(m - 10));
        assert(digit_value(digit_char(n - 10)) == n - 10);
        assert(digit_value(digit_char(m - 10)) == m - 10);
    }
}

/// What the tables say of one key.
pub open spec fn key_entry_consistent(idx: int) -> bool {
    &&& 1 <= camelot_number(idx) <= 12
    &&& (camelot_text(idx).last() == 'B') == (idx < 12)
    &&& (camelot_text(idx).last() == 'A') == (idx >= 12)
    &&& (key_name_text(idx).last() == 'm') == (idx >= 12)
    &&& 0 <= key_root(idx) < 12
    &&& key_index_of(key_root(idx), idx < 12) == idx
    &&& camelot_slot(camelot_number(idx), idx < 12) == idx
}

proof fn lemma_key_entry(idx: int)
    requires
        0 <= idx < 24,
    ensures
        key_entry_consistent(idx),
{
    if idx == 0 {
    } else if idx == 1 {
    } else if idx == 2 {
    } else if idx == 3 {
    } else if idx == 4 {
    } else if idx == 5 {
    } else if idx == 6 {
    } else if idx == 7 {
    } else if idx == 8 {
    } else if idx == 9 {
    } else if idx == 10 {
    } else if idx == 11 {
    } else if idx == 12 {
    } else if idx == 13 {
    } else if idx == 14 {
    } else if idx == 15 {
    } else if idx == 16 {
    } else if idx == 17 {
    } else if idx == 18 {
    } else if idx == 19 {
    } else if idx == 20 {
    } else if idx == 21 {
    } else if idx == 22 {
    } else {
    }
}

/// The key tables agree with the major/minor split: keys 0..12 are major, with
/// Camelot codes ending in B and names without a trailing m; keys 12..24 are
/// minor, with codes ending in A and names ending in m. Each key's tonic maps
/// back to its index, and no two keys share a Camelot code.
pub proof fn lemma_key_tables_consistent()
    ensures
        forall|idx: int| 0 <= idx < 24 ==> #[trigger] key_entry_consistent(idx),
        forall|i: int, j: int|
            0 <= i < 24 && 0 <= j < 24 && #[trigger] camelot_text(i) == #[trigger] camelot_text(j) ==> i == j,
{
    assert forall|idx: int| 0 <= idx < 24 implies #[trigger] key_entry_consistent(idx) by {
        lemma_key_entry(idx);
    }
    assert forall|i: int, j: int|
        0 <= i < 24 && 0 <= j < 24 && #[trigger] camelot_text(i) == #[trigger] camelot_text(j) implies i == j by {
        lemma_key_entry(i);
        lemma_key_entry(j);
        let ti = camelot_text(i);
        let tj = camelot_text(j);
        let di = decimal(camelot_number(i));
        let dj = decimal(camelot_number(j));
        assert(ti.last() == tj.last());
        assert(ti.subrange(0, ti.len() - 1) =~= di);
        assert(tj.subrange(0, tj.len() - 1) =~= dj);
        lemma_decimal_injective(camelot_number(i), camelot_number(j));
    }
}

} // verus!
