use llama_cpp_config::devices::{self, DeviceOption};
use llama_cpp_config::gpu_split::{
    block_counts, block_ranges, build_rows, move_by, parse_device_list, parse_weights, picks, render,
    set_auto, set_blocks, set_even, set_weight, summary, toggle, GpuRow, GpuSelection, Layout,
};

// A real mixed box, trimmed. ROCm0 is the discrete R9700 and ROCm1 an iGPU
// that cannot run inference — adjacent rows, one mis-click apart. (And that
// pairing is not even stable: the same machine has enumerated them the other
// way round, which is why the table shows the NAME next to every id.)
const SAMPLE: &str = "Available devices:\n  \
    CUDA0: NVIDIA GeForce RTX 4070 SUPER (12281 MiB, 10844 MiB free)\n  \
    ROCm0: AMD Radeon AI PRO R9700 (32624 MiB, 32462 MiB free)\n  \
    ROCm1: AMD Radeon(TM) Graphics (25706 MiB, 25555 MiB free)\n  \
    Vulkan0: AMD Radeon(TM) Graphics (33593 MiB, 31913 MiB free)\n  \
    CPU: AMD Ryzen 9 9900X (63090 MiB, 48233 MiB free)\n";

fn devs() -> Vec<DeviceOption> {
    devices::parse(SAMPLE)
}

fn sel(device: &str, tensor_split: &str) -> GpuSelection {
    GpuSelection {
        device: device.into(),
        tensor_split: tensor_split.into(),
    }
}

fn ids(rows: &[GpuRow]) -> Vec<String> {
    rows.iter().map(|r| r.id.to_string()).collect()
}

// ── The row order IS the split order ──────────────────────────────────

#[test]
fn checked_rows_come_first_in_split_order_then_the_rest_in_probe_order() {
    let rows = build_rows(&devs(), &sel("ROCm0,CUDA0", "3,1"), None);
    assert_eq!(ids(&rows), ["ROCm0", "CUDA0", "ROCm1", "Vulkan0"]);
    assert!(rows[0].enabled && rows[1].enabled && !rows[2].enabled);
}

/// A layout over no positions hands out no blocks, wherever it would start.
#[test]
fn rows_without_positions_show_no_blocks() {
    let s = sel("ROCm0,CUDA0", "3,1");
    let plain = build_rows(&devs(), &s, None);
    assert_eq!(build_rows(&devs(), &s, Some(Layout { start: 0, count: 0 })), plain);
    assert_eq!(build_rows(&devs(), &s, Some(Layout { start: i32::MAX, count: -4 })), plain);
}

// The drag handle. Position 0 is llama.cpp's main_gpu, and appending is the
// only thing a checkbox can do — so without this there is no way to promote a
// GPU to the head of the split.
#[test]
fn move_by_promotes_a_device_and_its_weight_together() {
    let s = move_by(&sel("CUDA0,ROCm0", "1,3"), "ROCm0", -1);
    assert_eq!(s, sel("ROCm0,CUDA0", "3,1"), "the weight rides along");
    assert_eq!(ids(&build_rows(&devs(), &s, None))[0], "ROCm0");
}

#[test]
fn move_by_clamps_at_both_ends_and_ignores_a_no_op() {
    let head = sel("ROCm0,CUDA0", "3,1");
    assert_eq!(move_by(&head, "ROCm0", -5), head, "already at the head");
    assert_eq!(move_by(&head, "CUDA0", 9), head, "already at the tail");
    assert_eq!(move_by(&head, "ROCm0", 0), head);
    // An unchecked device has no position to move.
    assert_eq!(move_by(&head, "Vulkan0", -1), head);
}

#[test]
fn move_by_reaches_across_a_three_device_split() {
    let s = move_by(&sel("CUDA0,ROCm0,Vulkan0", "1,3,2"), "Vulkan0", -2);
    assert_eq!(s, sel("Vulkan0,CUDA0,ROCm0", "2,1,3"));
}

// ── The four states of the table ──────────────────────────────────────

#[test]
fn nothing_selected_renders_both_strings_empty() {
    let s = render(&Vec::new());
    assert_eq!(s, sel("", ""));
    assert!(summary(&s).starts_with("(all detected devices"));
}

#[test]
fn one_device_never_gets_a_tensor_split() {
    // Even with a weight carried over from a 2-GPU selection: one device has
    // nothing to split against, and llama.cpp would ignore the vector anyway.
    let s = toggle(&sel("ROCm0,CUDA0", "3,1"), "CUDA0");
    assert_eq!(s, sel("ROCm0", ""));
}

#[test]
fn two_devices_unweighted_stay_auto() {
    let s = toggle(&sel("ROCm0", ""), "CUDA0");
    assert_eq!(s, sel("ROCm0,CUDA0", ""));
    assert!(summary(&s).contains("auto split"));
}

#[test]
fn two_devices_weighted_render_the_vector_in_device_order() {
    let s = set_weight(&sel("ROCm0,CUDA0", ""), "ROCm0", 3);
    // The untouched device is seeded to 1, not left at 0 — 3:1, not 3:0.
    assert_eq!(s, sel("ROCm0,CUDA0", "3,1"));
    assert_eq!(summary(&s), "--device ROCm0,CUDA0   --tensor-split 3,1");
}

// ── Edits ─────────────────────────────────────────────────────────────

#[test]
fn a_newly_checked_device_is_appended_at_weight_one() {
    let s = toggle(&sel("ROCm0,CUDA0", "3,1"), "Vulkan0");
    assert_eq!(s, sel("ROCm0,CUDA0,Vulkan0", "3,1,1"));
}

#[test]
fn unchecking_drops_the_device_and_its_weight_together() {
    let s = toggle(&sel("ROCm0,CUDA0,Vulkan0", "3,1,1"), "CUDA0");
    assert_eq!(s, sel("ROCm0,Vulkan0", "3,1"));
}

#[test]
fn toggle_matches_ids_case_insensitively() {
    assert_eq!(toggle(&sel("ROCm0", ""), "rocm0"), sel("", ""));
}

#[test]
fn set_weight_on_an_unselected_device_is_a_no_op() {
    let before = sel("ROCm0,CUDA0", "3,1");
    assert_eq!(set_weight(&before, "Vulkan0", 5), before);
}

#[test]
fn zeroing_every_weight_falls_back_to_auto() {
    let s = set_weight(&sel("ROCm0,CUDA0", "1,1"), "ROCm0", 0);
    assert_eq!(s, sel("ROCm0,CUDA0", "0,1"));
    let s = set_weight(&s, "CUDA0", 0);
    assert_eq!(s, sel("ROCm0,CUDA0", ""));
}

#[test]
fn auto_and_even_are_different_launches() {
    let weighted = sel("ROCm0,CUDA0", "3,1");
    assert_eq!(set_auto(&weighted), sel("ROCm0,CUDA0", ""));
    assert_eq!(set_even(&weighted), sel("ROCm0,CUDA0", "1,1"));
}

// ── Rows ──────────────────────────────────────────────────────────────

#[test]
fn rows_carry_the_selection_its_weights_and_the_derived_share() {
    let rows = build_rows(&devs(), &sel("ROCm0,CUDA0", "3,1"), None);
    assert_eq!(rows.len(), 4); // CPU is not a --device participant
    assert_eq!(rows[0].share, "75%");
    assert_eq!(rows[1].share, "25%");
    assert_eq!(rows[2].share, "—");
    assert_eq!(rows[0].weight, 3);
    assert_eq!(rows[0].name, "AMD Radeon AI PRO R9700");
    assert_eq!(rows[0].vram, "31.9 GB (31.7 free)");
}

#[test]
fn rows_report_auto_when_no_weights_are_set() {
    let rows = build_rows(&devs(), &sel("ROCm0,CUDA0", ""), None);
    assert_eq!(rows[0].share, "auto");
    assert_eq!(rows[1].share, "auto");
}

#[test]
fn a_single_selected_device_holds_the_whole_model() {
    let rows = build_rows(&devs(), &sel("ROCm0", ""), None);
    assert_eq!(rows[0].share, "100%");
}

#[test]
fn a_selected_id_the_probe_doesnt_know_survives_as_an_undetected_row() {
    // The probe is async: the GUI can render before it lands, and a config
    // may name a device from another machine. Dropping the row would let the
    // next save quietly rewrite `device`.
    let rows = build_rows(&devs(), &sel("SYCL3,ROCm0", "1,1"), None);
    assert_eq!(rows[0].id, "SYCL3");
    assert!(rows[0].enabled);
    assert!(!rows[0].detected);
    assert_eq!(rows[0].name, "(not detected)");
    assert!(rows[0].vram.is_empty());
    // …and it round-trips through an unrelated edit, weight intact.
    assert_eq!(
        toggle(&sel("SYCL3,ROCm0", "1,1"), "CUDA0"),
        sel("SYCL3,ROCm0,CUDA0", "1,1,1")
    );
}

#[test]
fn rows_are_empty_of_gpus_before_the_probe_lands_but_keep_the_selection() {
    let rows = build_rows(&[], &sel("ROCm0", ""), None);
    assert_eq!(rows.len(), 1);
    assert_eq!(rows[0].id, "ROCm0");
    assert!(!rows[0].detected);
}

// ── Hand-edited INI tolerance ─────────────────────────────────────────

#[test]
fn a_short_or_malformed_weight_vector_degrades_to_auto_not_garbage() {
    // Fewer weights than devices: the tail is unweighted.
    assert_eq!(
        picks(&sel("ROCm0,CUDA0", "3")),
        [("ROCm0".into(), 3), ("CUDA0".into(), 0)]
    );
    // Non-numeric / negative parts read as 0.
    assert_eq!(parse_weights("3, x, -2"), [3, 0, 0]);
    // Whitespace and a trailing comma never invent a device.
    assert_eq!(parse_device_list(" ROCm0 , CUDA0 , "), ["ROCm0", "CUDA0"]);
}

// A hand-written order is honoured as written — the table never re-sorts it
// behind the user's back; only the drag handle moves a device.
#[test]
fn a_hand_written_order_survives_every_edit_that_is_not_a_move() {
    let hand = sel("Vulkan0,CUDA0", "3,1");
    assert_eq!(ids(&build_rows(&devs(), &hand, None))[0], "Vulkan0");
    assert_eq!(set_even(&hand), sel("Vulkan0,CUDA0", "1,1"));
    assert_eq!(
        set_weight(&hand, "CUDA0", 2),
        sel("Vulkan0,CUDA0", "3,2"),
        "order untouched"
    );
}

// ── Blocks ────────────────────────────────────────────────────────────

// Ornith-1.0-9B: 33 blocks (32 trunk + 1 nextn/MTP) → 34 positions.
const ORNITH: i32 = 33;

fn full(n_layer_all: i32) -> Layout {
    Layout::new(n_layer_all, -1).expect("a model with blocks has a layout")
}

/// The first position a range label names, or `None` for the one label that
/// has no number in it (`output layer`).
fn first_position(label: &str) -> Option<i32> {
    label
        .trim_start_matches("blocks ")
        .trim_start_matches("block ")
        .split(['-', ' '])
        .next()?
        .parse()
        .ok()
}

// The whole reason the column can be edited in blocks: a vector that sums to
// the positions assigns EXACTLY itself, so there is no inverse to invent and
// nothing to round. Writing what the user typed reproduces what they typed.
#[test]
fn a_weight_vector_that_sums_to_the_positions_is_the_block_count_itself() {
    let l = full(ORNITH);
    assert_eq!(l.count, 34);
    assert_eq!(block_counts(&[29, 5], l), Some(vec![29, 5]));
    assert_eq!(block_counts(&[17, 17], l), Some(vec![17, 17]));
    assert_eq!(block_counts(&[34, 0], l), Some(vec![34, 0]));
    assert_eq!(block_counts(&[12, 11, 11], l), Some(vec![12, 11, 11]));
}

// …and the reason a percentage should NOT be the editable unit: three of them
// are the same launch, so two of every three nudges do nothing at all. The
// block column is the one that changes exactly when the launch does.
#[test]
fn neighbouring_percentages_collapse_onto_the_same_cut() {
    let l = full(ORNITH);
    for pct in [83, 84, 85] {
        assert_eq!(
            block_counts(&[pct, 100 - pct], l),
            Some(vec![29, 5]),
            "{pct}% cuts in the same place"
        );
    }
    assert_eq!(block_counts(&[82, 18], l), Some(vec![28, 6]));
    assert_eq!(block_counts(&[86, 14], l), Some(vec![30, 4]));
}

// Even is all-1s (see the module header), which is NOT one block each — the
// projection is what makes that legible instead of a column of 1s.
#[test]
fn even_projects_to_half_the_positions_not_to_a_weight_of_one() {
    assert_eq!(block_counts(&[1, 1], full(ORNITH)), Some(vec![17, 17]));
}

// Auto is decided by FREE VRAM at load, so there is no count to show and the
// table falls back to weights rather than printing a made-up one.
#[test]
fn auto_has_no_block_counts() {
    assert_eq!(block_counts(&[0, 0], full(ORNITH)), None);
    assert_eq!(block_counts(&[], full(ORNITH)), None);
}

// The positions are blocks PLUS the output layer, and partial offload eats
// them off the front (i_gpu_start), not the back.
#[test]
fn the_layout_counts_the_output_layer_and_partial_offload_shifts_the_start() {
    assert_eq!(Layout::new(ORNITH, -1), Some(Layout { start: 0, count: 34 }));
    assert_eq!(
        Layout::new(ORNITH, 99),
        Some(Layout { start: 0, count: 34 }),
        "an ngl past the end is still just all of them"
    );
    assert_eq!(
        Layout::new(ORNITH, 10),
        Some(Layout {
            start: 24,
            count: 10
        }),
        "10 offloaded = the LAST ten positions"
    );
    assert_eq!(Layout::new(0, -1), None, "no model read yet");
    assert_eq!(Layout::new(ORNITH, 0), None, "nothing on the GPU");
}

// The label has to name the output layer: it is a position but not a block,
// and it carries `output.weight` — 1.9 GiB on a 9B at BF16, routinely the
// biggest single tensor on its device.
#[test]
fn the_range_label_names_the_output_layer_separately() {
    let l = full(ORNITH);
    assert_eq!(
        block_ranges(&[29, 5], l),
        ["blocks 0-28", "blocks 29-32 + output"]
    );
    assert_eq!(
        block_ranges(&[33, 1], l),
        ["blocks 0-32", "output layer"],
        "a one-position tail is the output layer alone"
    );
    assert_eq!(block_ranges(&[32, 2], l), ["blocks 0-31", "block 32 + output"]);
    assert_eq!(block_ranges(&[34, 0], l), ["blocks 0-32 + output", "nothing"]);
    // Partial offload: the ranges start where the GPU does.
    let partial = Layout::new(ORNITH, 10).expect("layout");
    assert_eq!(
        block_ranges(&[5, 5], partial),
        ["blocks 24-28", "blocks 29-32 + output"]
    );
}

// Editing a count is not like editing a weight: the vector must keep summing
// to the positions, so the rows behind the edited one give the difference up.
#[test]
fn setting_a_block_count_takes_the_difference_from_the_back() {
    let l = full(ORNITH);
    let two = sel("ROCm0,CUDA0", "85,15");
    // Typing back the count already shown normalizes the vector and changes
    // nothing about the cut — 85,15 and 29,5 are the same launch.
    let same = set_blocks(&two, "ROCm0", 29, l);
    assert_eq!(same, sel("ROCm0,CUDA0", "29,5"));
    assert_eq!(block_counts(&[29, 5], l), block_counts(&[85, 15], l));
    // Giving the first device less hands the surplus to the other one.
    assert_eq!(set_blocks(&two, "ROCm0", 20, l), sel("ROCm0,CUDA0", "20,14"));
    // Three devices: the LAST row absorbs first, so an edit stays local.
    let three = sel("ROCm0,CUDA0,Vulkan0", "1,1,1");
    assert_eq!(
        set_blocks(&three, "ROCm0", 20, l),
        sel("ROCm0,CUDA0,Vulkan0", "20,11,3")
    );
    // …cascading forward only once the back is exhausted.
    assert_eq!(
        set_blocks(&three, "ROCm0", 34, l),
        sel("ROCm0,CUDA0,Vulkan0", "34,0,0")
    );
    // Out of range is clamped, never wrapped or written through.
    assert_eq!(set_blocks(&two, "ROCm0", 999, l), sel("ROCm0,CUDA0", "34,0"));
    assert_eq!(set_blocks(&two, "ROCm0", -5, l), sel("ROCm0,CUDA0", "0,34"));
    // An unknown id is a no-op, like every other edit here.
    assert_eq!(set_blocks(&two, "CUDA9", 4, l), two);
}

// Editing anything but the head: the tail still pays first, and a row IN FRONT
// of the edited one is touched only once everything behind it is at zero.
// (Three devices is where that direction becomes observable at all — with two
// there is only ever one other row to take from.)
#[test]
fn a_middle_or_last_row_edit_still_absorbs_from_the_tail_first() {
    let l = full(ORNITH);
    let three = sel("ROCm0,CUDA0,Vulkan0", "1,1,1"); // projects to 12/11/11
    assert_eq!(
        block_counts(&[1, 1, 1], l),
        Some(vec![12, 11, 11]),
        "the starting point the cases below move from"
    );
    // Middle row up: only the tail moves.
    assert_eq!(
        set_blocks(&three, "CUDA0", 20, l),
        sel("ROCm0,CUDA0,Vulkan0", "12,20,2")
    );
    // Middle row up past what the tail holds: the HEAD gives up the rest —
    // it has to, or the count asked for cannot be honoured.
    assert_eq!(
        set_blocks(&three, "CUDA0", 30, l),
        sel("ROCm0,CUDA0,Vulkan0", "4,30,0")
    );
    // Last row: the row before it is the tail, and absorbs both directions.
    assert_eq!(
        set_blocks(&three, "Vulkan0", 20, l),
        sel("ROCm0,CUDA0,Vulkan0", "12,2,20")
    );
    assert_eq!(
        set_blocks(&three, "Vulkan0", 0, l),
        sel("ROCm0,CUDA0,Vulkan0", "12,22,0")
    );
}

// Every count written back must survive its own projection, or the cell would
// renumber itself the moment the table rebuilt.
#[test]
fn a_block_edit_round_trips_through_the_projection() {
    let l = full(ORNITH);
    for n in 0..=l.count {
        let s = set_blocks(&sel("ROCm0,CUDA0", "1,1"), "ROCm0", n, l);
        let got = block_counts(&parse_weights(&s.tensor_split), l);
        // A 0/34 or 34/0 split renders a real vector, never a blank one —
        // blank would mean auto, which is a different launch entirely.
        assert_eq!(got, Some(vec![n, l.count - n]), "{n} blocks");
    }
}

// The same round-trip over THREE devices and every position of the edit, which
// is where the cascade has somewhere to go wrong: the invariant is that the
// vector still sums to the positions, the edited device got exactly what was
// typed, and the ranges still tile the whole span with no gap or overlap.
#[test]
fn every_three_device_edit_keeps_the_budget_and_the_ranges_contiguous() {
    let l = full(ORNITH);
    let three = sel("ROCm0,CUDA0,Vulkan0", "5,20,9");
    for (i, id) in ["ROCm0", "CUDA0", "Vulkan0"].iter().enumerate() {
        for n in 0..=l.count {
            let s = set_blocks(&three, id, n, l);
            let counts = block_counts(&parse_weights(&s.tensor_split), l)
                .unwrap_or_else(|| panic!("{id}={n} rendered an auto vector"));
            assert_eq!(counts.iter().sum::<i32>(), l.count, "{id}={n} sum");
            assert_eq!(counts[i], n, "{id}={n} is what the cell will show back");
            // Contiguity: walk the labels and check each picks up where the
            // previous one left off, ending on the output layer.
            let mut pos = l.start;
            for (c, label) in counts.iter().zip(block_ranges(&counts, l)) {
                if *c == 0 {
                    assert_eq!(label, "nothing", "{id}={n}");
                    continue;
                }
                // Every label but one opens with its first position. The
                // exception is a lone tail, which is NAMED (`output layer`)
                // rather than numbered — and can only be the last position.
                match first_position(&label) {
                    Some(first) => assert_eq!(first, pos, "{id}={n}: {label}"),
                    None => {
                        assert_eq!(label, "output layer", "{id}={n}");
                        assert_eq!(pos, l.start + l.count - 1, "{id}={n}: {label}");
                    }
                }
                pos += c;
            }
            assert_eq!(pos, l.start + l.count, "{id}={n} covers every position");
        }
    }
}

// Three rows projected end to end, as the table draws them.
#[test]
fn the_range_labels_tile_a_three_device_split() {
    assert_eq!(
        block_ranges(&[12, 11, 11], full(ORNITH)),
        ["blocks 0-11", "blocks 12-22", "blocks 23-32 + output"]
    );
}

// The rows carry the projection only when a model is there to project onto —
// the server-wide table passes None and stays a ratio table.
#[test]
fn rows_carry_blocks_only_when_a_layout_is_given() {
    let s = sel("ROCm0,CUDA0", "85,15");
    let with = build_rows(&devs(), &s, Some(full(ORNITH)));
    assert_eq!((with[0].blocks, with[1].blocks), (29, 5));
    assert_eq!(with[0].blocks_label, "blocks 0-28");
    assert_eq!(with[1].blocks_label, "blocks 29-32 + output");
    assert_eq!(with[0].weight, 85, "the stored ratio is untouched");
    // Unchecked rows have no position in the split.
    assert_eq!(with[2].blocks, 0);
    assert_eq!(with[2].blocks_label, "");

    let without = build_rows(&devs(), &s, None);
    assert!(without.iter().all(|r| r.blocks == 0 && r.blocks_label.is_empty()));

    // Three checked devices, projected the same way — the rows are the split
    // order, so the ranges run down the table in one unbroken sequence.
    let three = build_rows(
        &devs(),
        &sel("ROCm0,CUDA0,Vulkan0", "5,20,9"),
        Some(full(ORNITH)),
    );
    assert_eq!(
        three
            .iter()
            .take(3)
            .map(|r| (r.blocks, r.blocks_label.to_string()))
            .collect::<Vec<_>>(),
        [
            (5, "blocks 0-4".into()),
            (20, "blocks 5-24".into()),
            (9, "blocks 25-32 + output".to_string()),
        ]
    );
}
