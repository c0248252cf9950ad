//! Validation of chip profiles.
use crate::chip::{ChipModel, ChipProfile, MemoryDef, PeripheralDef, PeripheralModel, RegionModel};
use crate::text::{decimal_text, hex_text, push_decimal, push_hex};
use vstd::prelude::*;

verus! {

/// What a validation found.
#[derive(Debug)]
pub struct ValidationReport {
    pub passed: Vec<String>,
    pub warnings: Vec<String>,
    pub errors: Vec<String>,
}

/// Strings as characters.
pub open spec fn texts(v: Seq<String>) -> Seq<Seq<char>> {
    v.map_values(|s: String| s@)
}

impl Default for ValidationReport {
    fn default() -> (r: Self)
        ensures
            r.passed@ == Seq::<String>::empty(),
            r.warnings@ == Seq::<String>::empty(),
            r.errors@ == Seq::<String>::empty(),
    {
        ValidationReport { passed: Vec::new(), warnings: Vec::new(), errors: Vec::new() }
    }
}

impl ValidationReport {
    /// Whether there is no error.
    pub fn is_valid(&self) -> (r: bool)
        ensures
            r == (self.errors@.len() == 0),
    {
        self.errors.len() == 0
    }
}

/// An address is in a region.
pub open spec fn holds(r: RegionModel, x: int) -> bool {
    r.start <= x < r.start + r.size
}

/// Two regions share an address.
pub open spec fn overlap(a: RegionModel, b: RegionModel) -> bool {
    a.start < b.start + b.size && b.start < a.start + a.size
}

/// The report of two regions that overlap.
pub open spec fn overlap_text(a: RegionModel, b: RegionModel) -> Seq<char> {
    "内存区域重叠: "@ + a.name + " ("@ + hex_text(a.start as nat) + "-"@ + hex_text(
        (a.start + a.size) as nat,
    ) + ") 与 "@ + b.name + " ("@ + hex_text(b.start as nat) + "-"@ + hex_text(
        (b.start + b.size) as nat,
    ) + ")"@
}

/// The report of two peripherals at one address.
pub open spec fn conflict_text(a: PeripheralModel, b: PeripheralModel) -> Seq<char> {
    "外设地址冲突: "@ + a.name + " 与 "@ + b.name + " 基地址相同 ("@ + hex_text(
        a.base_address as nat,
    ) + ")"@
}

/// The reports of the overlapping pairs from the pair (i, j) on, in order.
pub open spec fn overlaps_from(memory: Seq<RegionModel>, i: int, j: int) -> Seq<Seq<char>>
    decreases memory.len() - i, memory.len() - j,
{
    if i < 0 || i >= memory.len() {
        Seq::empty()
    } else if j >= memory.len() {
        overlaps_from(memory, i + 1, i + 2)
    } else if overlap(memory[i], memory[j]) {
        seq![overlap_text(memory[i], memory[j])] + overlaps_from(memory, i, j + 1)
    } else {
        overlaps_from(memory, i, j + 1)
    }
}

/// The reports of the conflicting pairs from the pair (i, j) on, in order.
pub open spec fn conflicts_from(peripherals: Seq<PeripheralModel>, i: int, j: int) -> Seq<Seq<char>>
    decreases peripherals.len() - i, peripherals.len() - j,
{
    if i < 0 || i >= peripherals.len() {
        Seq::empty()
    } else if j >= peripherals.len() {
        conflicts_from(peripherals, i + 1, i + 2)
    } else if peripherals[i].base_address == peripherals[j].base_address {
        seq![conflict_text(peripherals[i], peripherals[j])] + conflicts_from(peripherals, i, j + 1)
    } else {
        conflicts_from(peripherals, i, j + 1)
    }
}

/// Whether a report is that of a profile: an error for each pair of regions that
/// overlap, a warning for each pair of peripherals at one address.
pub open spec fn reports(r: ValidationReport, p: ChipModel) -> bool {
    &&& texts(r.errors@) == overlaps_from(p.memory, 0, 1)
    &&& texts(r.warnings@) == conflicts_from(p.peripherals, 0, 1)
    &&& texts(r.passed@) == seq!["内存区域 "@ + decimal_text(p.memory.len()) + " 个检查完成"@]
}

fn overlap_message(a: &MemoryDef, b: &MemoryDef) -> (r: String)
    ensures
        r@ == overlap_text(a@, b@),
{
    let mut text: String = "内存区域重叠: ".to_string();
    text.append(a.name.as_str());
    text.append(" (");
    push_hex(&mut text, a.start as u64);
    text.append("-");
    push_hex(&mut text, a.start as u64 + a.size as u64);
    text.append(") 与 ");
    text.append(b.name.as_str());
    text.append(" (");
    push_hex(&mut text, b.start as u64);
    text.append("-");
    push_hex(&mut text, b.start as u64 + b.size as u64);
    text.append(")");
    text
}

fn conflict_message(a: &PeripheralDef, b: &PeripheralDef) -> (r: String)
    ensures
        r@ == conflict_text(a@, b@),
{
    let mut text: String = "外设地址冲突: ".to_string();
    text.append(a.name.as_str());
    text.append(" 与 ");
    text.append(b.name.as_str());
    text.append(" 基地址相同 (");
    push_hex(&mut text, a.base_address as u64);
    text.append(")");
    text
}

proof fn lemma_texts_push(v: Seq<String>, s: String, rest: Seq<Seq<char>>)
    ensures
        texts(v.push(s)) + rest == texts(v) + (seq![s@] + rest),
{
    assert(texts(v.push(s)) + rest =~= texts(v) + (seq![s@] + rest));
}

fn check_memory(memory: &Vec<MemoryDef>) -> (r: Vec<String>)
    ensures
        texts(r@) == overlaps_from(memory@.map_values(|d: MemoryDef| d@), 0, 1),
{
    let ghost defs = memory@.map_values(|d: MemoryDef| d@);
    let mut errors: Vec<String> = Vec::new();
    let mut i: usize = 0;
    assert(texts(errors@) + overlaps_from(defs, 0, 1) =~= overlaps_from(defs, 0, 1));
    while i < memory.len()
        invariant
            i <= memory@.len(),
            defs == memory@.map_values(|d: MemoryDef| d@),
            texts(errors@) + overlaps_from(defs, i as int, i + 1) == overlaps_from(defs, 0, 1),
        decreases memory@.len() - i,
    {
        let a = &memory[i];
        let mut j: usize = i + 1;
        while j < memory.len()
            invariant
                i < j <= memory@.len(),
                *a == memory@[i as int],
                defs == memory@.map_values(|d: MemoryDef| d@),
                texts(errors@) + overlaps_from(defs, i as int, j as int) == overlaps_from(
                    defs,
                    0,
                    1,
                ),
            decreases memory@.len() - j,
        {
            let b = &memory[j];
            if (a.start as u64) < b.start as u64 + b.size as u64 && (b.start as u64) < a.start as u64
                + a.size as u64 {
                let message = overlap_message(a, b);
                proof {
                    lemma_texts_push(errors@, message, overlaps_from(defs, i as int, j + 1));
                }
                errors.push(message);
            }
            j = j + 1;
        }
        i = i + 1;
    }
    assert(texts(errors@) + overlaps_from(defs, i as int, i + 1) =~= texts(errors@));
    errors
}

fn check_peripherals(peripherals: &Vec<PeripheralDef>) -> (r: Vec<String>)
    ensures
        texts(r@) == conflicts_from(peripherals@.map_values(|d: PeripheralDef| d@), 0, 1),
{
    let ghost defs = peripherals@.map_values(|d: PeripheralDef| d@);
    let mut warnings: Vec<String> = Vec::new();
    let mut i: usize = 0;
    assert(texts(warnings@) + conflicts_from(defs, 0, 1) =~= conflicts_from(defs, 0, 1));
    while i < peripherals.len()
        invariant
            i <= peripherals@.len(),
            defs == peripherals@.map_values(|d: PeripheralDef| d@),
            texts(warnings@) + conflicts_from(defs, i as int, i + 1) == conflicts_from(defs, 0, 1),
        decreases peripherals@.len() - i,
    {
        let a = &peripherals[i];
        let mut j: usize = i + 1;
        while j < peripherals.len()
            invariant
                i < j <= peripherals@.len(),
                *a == peripherals@[i as int],
                defs == peripherals@.map_values(|d: PeripheralDef| d@),
                texts(warnings@) + conflicts_from(defs, i as int, j as int) == conflicts_from(
                    defs,
                    0,
                    1,
                ),
            decreases peripherals@.len() - j,
        {
            let b = &peripherals[j];
            if a.base_address == b.base_address {
                let message = conflict_message(a, b);
                proof {
                    lemma_texts_push(warnings@, message, conflicts_from(defs, i as int, j + 1));
                }
                warnings.push(message);
            }
            j = j + 1;
        }
        i = i + 1;
    }
    assert(texts(warnings@) + conflicts_from(defs, i as int, i + 1) =~= texts(warnings@));
    warnings
}

/// Checks a profile: memory regions that overlap are errors, peripherals at one
/// address are warnings.
pub fn validate(profile: &ChipProfile) -> (r: ValidationReport)
    ensures
        reports(r, profile@),
{
    let mut report = ValidationReport::default();
    report.errors = check_memory(&profile.memory);
    report.warnings = check_peripherals(&profile.peripherals);
    let mut done: String = "内存区域 ".to_string();
    push_decimal(&mut done, profile.memory.len() as u64);
    done.append(" 个检查完成");
    report.passed.push(done);
    assert(texts(report.passed@) =~= seq![done@]);
    report
}

/// Two regions overlap whichever is named first.
pub proof fn law_overlap_symmetric(a: RegionModel, b: RegionModel)
    ensures
        overlap(a, b) == overlap(b, a),
{
}

/// Regions of some size overlap exactly where they share an address.
pub proof fn law_overlap_shares_address(a: RegionModel, b: RegionModel)
    requires
        a.size > 0,
        b.size > 0,
    ensures
        overlap(a, b) <==> exists|x: int| #[trigger] holds(a, x) && holds(b, x),
{
    let x = if a.start < b.start {
        b.start as int
    } else {
        a.start as int
    };
    if overlap(a, b) {
        assert(holds(a, x) && holds(b, x));
    }
}

proof fn lemma_no_overlaps(memory: Seq<RegionModel>, i: int, j: int)
    requires
        0 <= i < j,
    ensures
        overlaps_from(memory, i, j).len() == 0 <==> forall|a: int, b: int|
            0 <= a < b < memory.len() && (a > i || (a == i && b >= j)) ==> !overlap(
                #[trigger] memory[a],
                #[trigger] memory[b],
            ),
    decreases memory.len() - i, memory.len() - j,
{
    if i < memory.len() {
        if j >= memory.len() {
            lemma_no_overlaps(memory, i + 1, i + 2);
        } else {
            lemma_no_overlaps(memory, i, j + 1);
        }
    }
}

/// A profile is valid exactly where no two of its regions overlap.
pub proof fn law_valid_without_overlap(r: ValidationReport, p: ChipModel)
    requires
        reports(r, p),
    ensures
        r.errors@.len() == 0 <==> forall|a: int, b: int|
            0 <= a < b < p.memory.len() ==> !overlap(#[trigger] p.memory[a], #[trigger] p.memory[b]),
{
    lemma_no_overlaps(p.memory, 0, 1);
    assert(texts(r.errors@).len() == r.errors@.len());
}

} // verus!
