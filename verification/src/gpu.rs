//! GPU statistics, from `nvidia-smi` or from the files that the AMD driver keeps.

use crate::kinds::AccelKind;
use crate::numbers;
use crate::records::{GpuStats, GpuStatsView};
use crate::search;
use crate::text;
use vstd::prelude::*;
use vstd::string::*;

verus! {

/// The contents of a list of GPUs.
pub open spec fn gpu_views(v: Seq<GpuStats>) -> Seq<GpuStatsView> {
    v.map_values(|g: GpuStats| g@)
}

/// The number that a text holds, and zero where it holds none that fits.
pub open spec fn number_or_zero(s: Seq<char>, max: nat) -> nat {
    match numbers::parsed(s, max) {
        Some(n) => n,
        None => 0,
    }
}

// ---------------------------------------------------------------------------
// nvidia-smi
// ---------------------------------------------------------------------------

/// The fields of a line of comma-separated values, without the white space around them.
pub open spec fn fields(line: Seq<char>) -> Seq<Seq<char>> {
    search::split(line, seq![',']).map_values(|f: Seq<char>| text::trimmed(f))
}

/// The GPU that six fields describe: index, name, total and used memory, utilisation and
/// temperature.
pub open spec fn gpu_of(f: Seq<Seq<char>>) -> GpuStatsView {
    GpuStatsView {
        index: number_or_zero(f[0], u32::MAX as nat) as u32,
        name: f[1],
        mem_total_mb: number_or_zero(f[2], u64::MAX as nat) as u64,
        mem_used_mb: number_or_zero(f[3], u64::MAX as nat) as u64,
        util_pct: Some(f[4]),
        temp_c: Some(f[5]),
    }
}

/// The GPUs that lines of comma-separated values describe. A line with fewer than six fields
/// describes none.
pub open spec fn gpus_in(lines: Seq<Seq<char>>) -> Seq<GpuStatsView>
    decreases lines.len(),
{
    if lines.len() == 0 {
        Seq::empty()
    } else {
        let before = gpus_in(lines.drop_last());
        let f = fields(lines.last());
        if text::trimmed(lines.last()).len() == 0 || f.len() < 6 {
            before
        } else {
            before.push(gpu_of(f))
        }
    }
}

/// The arguments of `nvidia-smi`.
pub fn nvidia_args() -> (r: Vec<String>)
    ensures
        text::texts(r@) == seq![
            "--query-gpu=index,name,memory.total,memory.used,utilization.gpu,temperature.gpu"@,
            "--format=csv,noheader,nounits"@,
        ],
{
    let mut v: Vec<String> = Vec::new();
    v.push(
        "--query-gpu=index,name,memory.total,memory.used,utilization.gpu,temperature.gpu".to_owned(),
    );
    v.push("--format=csv,noheader,nounits".to_owned());
    assert(text::texts(v@) =~= seq![
        "--query-gpu=index,name,memory.total,memory.used,utilization.gpu,temperature.gpu"@,
        "--format=csv,noheader,nounits"@,
    ]);
    v
}

/// The fields of a line of comma-separated values, without the white space around them.
fn fields_of(line: &str) -> (r: Vec<String>)
    ensures
        text::texts(r@) == fields(line@),
{
    let pieces: Vec<String> = search::split_at_char(line, ',');
    let ghost all = text::texts(pieces@);
    let mut out: Vec<String> = Vec::new();
    for i in 0..pieces.len()
        invariant
            all == text::texts(pieces@),
            all == search::split(line@, seq![',']),
            text::texts(out@) =~= fields(line@).take(i as int),
    {
        let ghost before = text::texts(out@);
        let t: String = text::trim(pieces[i].as_str());
        let ghost shown = t@;
        out.push(t);
        assert(all[i as int] == pieces@[i as int]@);
        assert(fields(line@)[i as int] == shown);
        assert(text::texts(out@) =~= before.push(shown));
        assert(fields(line@).take(i + 1) =~= fields(line@).take(i as int).push(shown));
    }
    assert(fields(line@).take(fields(line@).len() as int) =~= fields(line@));
    out
}

fn u64_or_zero(s: &str) -> (r: u64)
    ensures
        r as nat == number_or_zero(s@, u64::MAX as nat),
{
    match numbers::parse_u64(s) {
        Some(n) => n,
        None => 0,
    }
}

fn u32_or_zero(s: &str) -> (r: u32)
    ensures
        r as nat == number_or_zero(s@, u32::MAX as nat),
{
    match numbers::parse_u32(s) {
        Some(n) => n,
        None => 0,
    }
}

/// The GPUs that the output of `nvidia-smi` describes.
pub fn nvidia_stats(out: &str) -> (r: Vec<GpuStats>)
    ensures
        gpu_views(r@) == gpus_in(search::lines(out@)),
{
    let lines: Vec<String> = search::lines_of(out);
    let ghost all = text::texts(lines@);
    let mut v: Vec<GpuStats> = Vec::new();
    assert(gpu_views(v@) =~= gpus_in(all.take(0)));
    for i in 0..lines.len()
        invariant
            all == text::texts(lines@),
            gpu_views(v@) == gpus_in(all.take(i as int)),
    {
        assert(all.take(i + 1).drop_last() =~= all.take(i as int));
        let line: &str = lines[i].as_str();
        let ghost before = gpu_views(v@);
        let f: Vec<String> = fields_of(line);
        let ghost want = fields(line@);
        if !text::trim(line).as_str().is_empty() && f.len() >= 6 {
            assert forall|k: int| 0 <= k < f@.len() implies #[trigger] f@[k]@ == want[k] by {
                assert(text::texts(f@)[k] == f@[k]@);
            }
            let g: GpuStats = GpuStats {
                index: u32_or_zero(f[0].as_str()),
                name: f[1].clone(),
                mem_total_mb: u64_or_zero(f[2].as_str()),
                mem_used_mb: u64_or_zero(f[3].as_str()),
                util_pct: Some(f[4].clone()),
                temp_c: Some(f[5].clone()),
            };
            assert(g@ =~= gpu_of(want));
            v.push(g);
            assert(gpu_views(v@) =~= before.push(g@));
        }
    }
    assert(all.take(all.len() as int) =~= all);
    v
}

// ---------------------------------------------------------------------------
// AMD driver files
// ---------------------------------------------------------------------------

/// How many cards are looked for.
pub const MAX_CARDS: u32 = 8;

/// A megabyte, in bytes.
pub const MEGABYTE: u64 = 1_048_576;

/// The files of a card's device directory, each `None` where it could not be read.
#[derive(Debug, PartialEq)]
pub struct CardFiles {
    pub mem_info_vram_total: Option<String>,
    pub mem_info_vram_used: Option<String>,
    pub gpu_busy_percent: Option<String>,
}

/// The number of whole megabytes in the bytes that a file gives.
pub open spec fn megabytes_in(file: Option<Seq<char>>) -> Option<nat> {
    match file {
        Some(s) => match numbers::parsed(text::trimmed(s), u64::MAX as nat) {
            Some(n) => Some(n / MEGABYTE as nat),
            None => None,
        },
        None => None,
    }
}

/// The GPU behind the files of card `index`. A card that does not give its total memory is left
/// out.
pub open spec fn card_of(
    index: u32,
    total: Option<Seq<char>>,
    used: Option<Seq<char>>,
    busy: Option<Seq<char>>,
) -> Option<GpuStatsView> {
    match megabytes_in(total) {
        Some(t) => Some(
            GpuStatsView {
                index: index,
                name: "AMD GPU"@,
                mem_total_mb: t as u64,
                mem_used_mb: match megabytes_in(used) {
                    Some(u) => u as u64,
                    None => 0,
                },
                util_pct: match busy {
                    Some(b) => Some(text::trimmed(b)),
                    None => None,
                },
                temp_c: None,
            },
        ),
        None => None,
    }
}

/// The GPUs behind the device directories of the cards, by index; `None` where there is no such
/// directory.
pub open spec fn cards_in(cards: Seq<Option<CardFiles>>) -> Seq<GpuStatsView>
    decreases cards.len(),
{
    if cards.len() == 0 {
        Seq::empty()
    } else {
        let before = cards_in(cards.drop_last());
        let index = (cards.len() - 1) as u32;
        match cards.last() {
            Some(f) => match card_of(
                index,
                text::opt_text(f.mem_info_vram_total),
                text::opt_text(f.mem_info_vram_used),
                text::opt_text(f.gpu_busy_percent),
            ) {
                Some(g) => before.push(g),
                None => before,
            },
            None => before,
        }
    }
}

/// The device directory of a card.
pub fn card_device(index: u32) -> (r: String)
    ensures
        r@ == "/sys/class/drm/card"@ + numbers::decimal(index as nat) + "/device"@,
{
    let mut s: String = "/sys/class/drm/card".to_owned();
    s.append(numbers::decimal_of(index as u64).as_str());
    s.append("/device");
    s
}

fn megabytes(file: &Option<String>) -> (r: Option<u64>)
    ensures
        match r {
            Some(n) => megabytes_in(text::opt_text(*file)) == Some(n as nat),
            None => megabytes_in(text::opt_text(*file)) is None,
        },
{
    match file {
        Some(s) => match numbers::parse_u64(text::trim(s.as_str()).as_str()) {
            Some(n) => Some(n / MEGABYTE),
            None => None,
        },
        None => None,
    }
}

/// The GPU behind the files of card `index`.
pub fn rocm_card(index: u32, files: &CardFiles) -> (r: Option<GpuStats>)
    ensures
        match r {
            Some(g) => Some(g@),
            None => None,
        } == card_of(
            index,
            text::opt_text(files.mem_info_vram_total),
            text::opt_text(files.mem_info_vram_used),
            text::opt_text(files.gpu_busy_percent),
        ),
{
    let total: u64 = match megabytes(&files.mem_info_vram_total) {
        Some(t) => t,
        None => {
            return None;
        },
    };
    let used: u64 = match megabytes(&files.mem_info_vram_used) {
        Some(u) => u,
        None => 0,
    };
    let busy: Option<String> = match &files.gpu_busy_percent {
        Some(b) => Some(text::trim(b.as_str())),
        None => None,
    };
    Some(
        GpuStats {
            index,
            name: "AMD GPU".to_owned(),
            mem_total_mb: total,
            mem_used_mb: used,
            util_pct: busy,
            temp_c: None,
        },
    )
}

/// The GPUs behind the device directories of the cards. Without such directories the list is
/// empty.
pub fn rocm_stats(cards: &Vec<Option<CardFiles>>) -> (r: Vec<GpuStats>)
    requires
        cards@.len() <= MAX_CARDS,
    ensures
        gpu_views(r@) == cards_in(cards@),
{
    let mut v: Vec<GpuStats> = Vec::new();
    assert(gpu_views(v@) =~= cards_in(cards@.take(0)));
    for i in 0..cards.len()
        invariant
            cards@.len() <= MAX_CARDS,
            gpu_views(v@) == cards_in(cards@.take(i as int)),
    {
        assert(cards@.take(i + 1).drop_last() =~= cards@.take(i as int));
        let ghost before = gpu_views(v@);
        if let Some(f) = &cards[i] {
            if let Some(g) = rocm_card(i as u32, f) {
                v.push(g);
                assert(gpu_views(v@) =~= before.push(g@));
            }
        }
    }
    assert(cards@.take(cards@.len() as int) =~= cards@);
    v
}

/// Without device directories there are no GPUs.
pub proof fn no_cards_no_gpus(cards: Seq<Option<CardFiles>>)
    requires
        forall|i: int| 0 <= i < cards.len() ==> #[trigger] cards[i] is None,
    ensures
        cards_in(cards) == Seq::<GpuStatsView>::empty(),
    decreases cards.len(),
{
    if cards.len() > 0 {
        let front = cards.drop_last();
        assert forall|i: int| 0 <= i < front.len() implies #[trigger] front[i] is None by {
            assert(front[i] == cards[i]);
        }
        no_cards_no_gpus(front);
        assert(cards.last() == cards[cards.len() - 1]);
    }
}

// ---------------------------------------------------------------------------
// Both
// ---------------------------------------------------------------------------

/// The GPUs of a VM with that acceleration stack. `nvidia` is the output of `nvidia-smi`, `None`
/// where it failed; `cards` are the device directories of the cards.
pub fn gpu_stats(
    accel: AccelKind,
    nvidia: &Option<String>,
    cards: &Vec<Option<CardFiles>>,
) -> (r: Vec<GpuStats>)
    requires
        cards@.len() <= MAX_CARDS,
    ensures
        gpu_views(r@) == match accel {
            AccelKind::Cuda => match nvidia {
                Some(out) => gpus_in(search::lines(out@)),
                None => Seq::empty(),
            },
            AccelKind::Rocm => cards_in(cards@),
            AccelKind::Cpu => Seq::empty(),
        },
{
    let none: Vec<GpuStats> = Vec::new();
    assert(gpu_views(none@) =~= Seq::<GpuStatsView>::empty());
    match accel {
        AccelKind::Cuda => match nvidia {
            Some(out) => nvidia_stats(out.as_str()),
            None => none,
        },
        AccelKind::Rocm => rocm_stats(cards),
        AccelKind::Cpu => none,
    }
}

// ---------------------------------------------------------------------------
// Laws
// ---------------------------------------------------------------------------

/// A card reports the memory that its files tell, in whole megabytes: where the files hold the
/// numbers `t` and `u` of bytes, it has the megabytes that fit in `t` and uses those that fit in `u`,
/// whatever else the files say.
pub proof fn card_reports_total_and_used_memory(
    index: u32,
    total: Seq<char>,
    used: Seq<char>,
    busy: Option<Seq<char>>,
    t: nat,
    u: nat,
)
    requires
        numbers::parsed(text::trimmed(total), 0xffff_ffff_ffff_ffff) == Some(t),
        numbers::parsed(text::trimmed(used), 0xffff_ffff_ffff_ffff) == Some(u),
    ensures
        card_of(index, Some(total), Some(used), busy) matches Some(g) && {
            &&& g.index == index
            &&& g.mem_total_mb * 1048576 <= t < (g.mem_total_mb + 1) * 1048576
            &&& g.mem_used_mb * 1048576 <= u < (g.mem_used_mb + 1) * 1048576
            &&& g.name == "AMD GPU"@
            &&& g.temp_c is None
            &&& busy matches Some(b) ==> g.util_pct == Some(text::trimmed(b))
            &&& busy is None ==> g.util_pct is None
        },
{
    assert(t / 1048576 <= t);
    assert(u / 1048576 <= u);
}

/// A card whose total memory is not told is left out, and no other card; used memory that is not
/// told counts as none.
pub proof fn card_without_total_is_left_out(
    index: u32,
    total: Option<Seq<char>>,
    used: Option<Seq<char>>,
    busy: Option<Seq<char>>,
)
    ensures
        card_of(index, total, used, busy) is Some <==> (total matches Some(t) && numbers::parsed(
            text::trimmed(t),
            0xffff_ffff_ffff_ffff,
        ) is Some),
        !(used matches Some(u) && numbers::parsed(text::trimmed(u), 0xffff_ffff_ffff_ffff) is Some)
            ==> (card_of(index, total, used, busy) matches Some(g) ==> g.mem_used_mb == 0),
{
}

/// The used memory of a card depends on the file that tells it alone, and the total memory on its
/// own file alone.
pub proof fn memory_numbers_do_not_mix(
    i: u32,
    j: u32,
    a: Option<Seq<char>>,
    b: Option<Seq<char>>,
    x: Option<Seq<char>>,
    y: Option<Seq<char>>,
    busy: Option<Seq<char>>,
    other: Option<Seq<char>>,
)
    ensures
        card_of(i, a, x, busy) matches Some(g) ==> (card_of(j, b, x, other) matches Some(h)
            ==> g.mem_used_mb == h.mem_used_mb),
        card_of(i, a, x, busy) matches Some(g) ==> (card_of(j, a, y, other) matches Some(h)
            && g.mem_total_mb == h.mem_total_mb),
{
}

/// The cards are reported in order, each under its own number: one more card adds its GPU behind the
/// others, if it is there and tells its total memory.
pub proof fn cards_are_numbered_by_their_place(cards: Seq<Option<CardFiles>>, f: CardFiles)
    requires
        cards.len() < 8,
    ensures
        cards_in(cards.push(None)) == cards_in(cards),
        cards_in(cards.push(Some(f))) == cards_in(cards) + (match card_of(
            cards.len() as u32,
            text::opt_text(f.mem_info_vram_total),
            text::opt_text(f.mem_info_vram_used),
            text::opt_text(f.gpu_busy_percent),
        ) {
            Some(g) => seq![g],
            None => Seq::empty(),
        }),
        cards_in(Seq::empty()).len() == 0,
{
    assert(cards.push(None).drop_last() =~= cards);
    assert(cards.push(Some(f)).drop_last() =~= cards);
    assert(cards_in(cards) + Seq::<GpuStatsView>::empty() =~= cards_in(cards));
    let with = cards_in(cards.push(Some(f)));
    match card_of(
        cards.len() as u32,
        text::opt_text(f.mem_info_vram_total),
        text::opt_text(f.mem_info_vram_used),
        text::opt_text(f.gpu_busy_percent),
    ) {
        Some(g) => {
            assert(with =~= cards_in(cards) + seq![g]);
        },
        None => {},
    }
}

/// A line of `nvidia-smi` with six fields or more describes one GPU: its number, its name, its total
/// and its used memory, its utilisation and its temperature, in that order, each without the white
/// space around it. A number that cannot be read counts as zero.
pub proof fn line_of_six_fields_is_one_gpu(lines: Seq<Seq<char>>, f: Seq<Seq<char>>)
    requires
        f.len() >= 6,
        forall|i: int| 0 <= i < f.len() ==> !(#[trigger] f[i]).contains(','),
    ensures
        ({
            let line = search::joined(f, seq![',']);
            let before = gpus_in(lines);
            let got = gpus_in(lines.push(line));
            &&& got.len() == before.len() + 1
            &&& got.drop_last() == before
            &&& got.last().name == text::trimmed(f[1])
            &&& numbers::parsed(text::trimmed(f[0]), 0xffff_ffff) matches Some(n)
                ==> got.last().index == n
            &&& numbers::parsed(text::trimmed(f[0]), 0xffff_ffff) is None ==> got.last().index == 0
            &&& numbers::parsed(text::trimmed(f[2]), 0xffff_ffff_ffff_ffff) matches Some(n)
                ==> got.last().mem_total_mb == n
            &&& numbers::parsed(text::trimmed(f[2]), 0xffff_ffff_ffff_ffff) is None
                ==> got.last().mem_total_mb == 0
            &&& numbers::parsed(text::trimmed(f[3]), 0xffff_ffff_ffff_ffff) matches Some(n)
                ==> got.last().mem_used_mb == n
            &&& numbers::parsed(text::trimmed(f[3]), 0xffff_ffff_ffff_ffff) is None
                ==> got.last().mem_used_mb == 0
            &&& got.last().util_pct == Some(text::trimmed(f[4]))
            &&& got.last().temp_c == Some(text::trimmed(f[5]))
        }),
{
    let line = search::joined(f, seq![',']);
    search::splitting_undoes_joining(f, ',');
    assert(lines.push(line).drop_last() =~= lines);
    let seen = fields(line);
    assert(seen.len() == f.len());
    assert(seen[0] == text::trimmed(f[0]) && seen[1] == text::trimmed(f[1]) && seen[2]
        == text::trimmed(f[2]) && seen[3] == text::trimmed(f[3]) && seen[4] == text::trimmed(f[4])
        && seen[5] == text::trimmed(f[5]));
    lemma_comma_is_no_blank(f);
    assert(gpus_in(lines.push(line)) =~= gpus_in(lines).push(gpu_of(seen)));
    assert(gpus_in(lines).push(gpu_of(seen)).drop_last() =~= gpus_in(lines));
}

/// A text with a comma in it is not blank.
proof fn lemma_comma_is_no_blank(f: Seq<Seq<char>>)
    requires
        f.len() >= 2,
    ensures
        text::trimmed(search::joined(f, seq![','])).len() > 0,
{
    let line = search::joined(f, seq![',']);
    let front = search::joined(f.drop_last(), seq![',']);
    assert(line[front.len() as int] == ',');
    assert(!text::is_space(','));
    text::blank_is_all_space(line);
}

/// A line with fewer than six fields, a blank one among them, describes no GPU.
pub proof fn short_line_is_no_gpu(lines: Seq<Seq<char>>, f: Seq<Seq<char>>)
    requires
        0 < f.len() < 6,
        forall|i: int| 0 <= i < f.len() ==> !(#[trigger] f[i]).contains(','),
    ensures
        gpus_in(lines.push(search::joined(f, seq![',']))) == gpus_in(lines),
        gpus_in(Seq::empty()).len() == 0,
{
    let line = search::joined(f, seq![',']);
    search::splitting_undoes_joining(f, ',');
    assert(lines.push(line).drop_last() =~= lines);
}

}
