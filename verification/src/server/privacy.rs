//! Privacy: while somebody watches, only the virtual display is on.

use vstd::prelude::*;
use vstd::slice::{slice_subrange, slice_to_vec};

use crate::server::display_config::{
    activated, deactivated, find_source_path, is_active, same_source, same_target, source_path,
    ConfigView, DisplayConfig, PathInfo,
};

verus! {

/// Tells whether privacy can be had: it needs a virtual display, and Windows.
pub fn check_privacy(enabled: bool, has_virtual_display: bool, windows: bool) -> (result: Result<
    (),
    &'static str,
>)
    ensures
        match result {
            Ok(_) => enabled ==> has_virtual_display && windows,
            Err(text) => enabled && if !has_virtual_display {
                text@
                    == "privacy mode requires [video.virtual_display]; refusing to disable the only display"@
            } else {
                !windows && text@ == "privacy mode is only supported on Windows"@
            },
        },
{
    if enabled && !has_virtual_display {
        return Err(
            "privacy mode requires [video.virtual_display]; refusing to disable the only display",
        );
    }
    if enabled && !windows {
        return Err("privacy mode is only supported on Windows");
    }
    Ok(())
}

/// The paths of a topology in which only one is active.
pub open spec fn alone(paths: Seq<PathInfo>, index: int) -> Seq<PathInfo> {
    Seq::new(
        paths.len(),
        |i: int|
            if i == index {
                activated(paths[i])
            } else {
                deactivated(paths[i])
            },
    )
}

/// The topology in which only one path is active.
pub fn private_config(config: DisplayConfig, virtual_index: usize) -> (result: DisplayConfig)
    ensures
        result@ == (ConfigView {
            paths: alone(config.paths@, virtual_index as int),
            modes: config.modes@,
        }),
{
    let mut config: DisplayConfig = config;
    let ghost before = config.paths@;
    let ghost modes = config.modes@;
    let count: usize = config.paths.len();
    for index in 0..count
        invariant
            count == before.len(),
            config.paths@.len() == before.len(),
            config.modes@ == modes,
            config.paths@ == alone(before, virtual_index as int).take(index as int) + before.skip(
                index as int,
            ),
    {
        let mut path: PathInfo = config.paths[index];
        assert(path == before[index as int]);
        if index == virtual_index {
            if path.flags % 2 == 0 {
                path.flags = path.flags + 1;
            }
        } else {
            path.flags = path.flags - path.flags % 2;
        }
        config.paths[index] = path;
        assert(config.paths@ =~= alone(before, virtual_index as int).take(index + 1) + before.skip(
            index + 1,
        ));
    }
    assert(config.paths@ =~= alone(before, virtual_index as int));
    config
}

/// Under privacy the one path is active and no other is.
pub proof fn law_only_the_virtual_display_is_on(paths: Seq<PathInfo>, index: int, other: int)
    requires
        0 <= other < paths.len(),
    ensures
        is_active(alone(paths, index)[other]) == (other == index),
{
}

/// Whether every active path starts at the source of a name.
pub open spec fn only_named_active(paths: Seq<PathInfo>, names: Seq<String>, expected: Seq<char>) -> bool {
    forall|i: int|
        0 <= i < paths.len() && is_active(#[trigger] paths[i]) ==> names[i]@ == expected
}

/// Checks that the virtual display is on and no other. `names` and `all_names`
/// hold the names of the sources; of an inactive path among all it is not read.
pub fn verify_privacy(
    active: &DisplayConfig,
    names: &Vec<String>,
    adapter_luid: u64,
    expected_name: &str,
    all: &DisplayConfig,
    all_names: &Vec<String>,
) -> (result: Result<(), String>)
    requires
        names@.len() == active.paths@.len(),
        all_names@.len() == all.paths@.len(),
    ensures
        match source_path(active.paths@, names@, adapter_luid, expected_name@) {
            Err(text) => result matches Err(e) && e@ == text,
            Ok(at) => if !is_active(active.paths@[at]) {
                result matches Err(e) && e@
                    == "CCD privacy verification mismatch: virtual path is inactive"@
            } else if !only_named_active(all.paths@, all_names@, expected_name@) {
                result matches Err(e) && e@
                    == "CCD privacy verification mismatch: a physical source remains active"@
            } else {
                result is Ok
            },
        },
{
    let (index, _) = find_source_path(&active.paths, names, adapter_luid, expected_name)?;
    if active.paths[index].flags % 2 == 0 {
        return Err("CCD privacy verification mismatch: virtual path is inactive".to_string());
    }
    let expected: String = expected_name.to_string();
    for i in 0..all.paths.len()
        invariant
            all_names@.len() == all.paths@.len(),
            expected@ == expected_name@,
            source_path(active.paths@, names@, adapter_luid, expected_name@) == Ok::<
                int,
                Seq<char>,
            >(index as int),
            is_active(active.paths@[index as int]),
            forall|j: int|
                0 <= j < i && is_active(#[trigger] all.paths@[j]) ==> all_names@[j]@
                    == expected_name@,
    {
        if all.paths[i].flags % 2 == 1 && !(all_names[i] == expected) {
            assert(is_active(all.paths@[i as int]));
            return Err(
                "CCD privacy verification mismatch: a physical source remains active".to_string(),
            );
        }
    }
    Ok(())
}

/// Whether a path is among the active ones of a list.
pub open spec fn is_back(path: PathInfo, active: Seq<PathInfo>) -> bool {
    exists|i: int|
        0 <= i < active.len() && is_active(#[trigger] active[i]) && same_source(active[i], path)
            && same_target(active[i], path)
}

fn back(path: &PathInfo, active: &Vec<PathInfo>) -> (found: bool)
    ensures
        found == is_back(*path, active@),
{
    for i in 0..active.len()
        invariant
            forall|j: int|
                0 <= j < i && is_active(#[trigger] active@[j]) ==> !(same_source(active@[j], *path)
                    && same_target(active@[j], *path)),
    {
        if active[i].flags % 2 == 1 && active[i].source_adapter == path.source_adapter
            && active[i].source_id == path.source_id && active[i].target_adapter
            == path.target_adapter && active[i].target_id == path.target_id {
            assert(is_active(active@[i as int]));
            return true;
        }
    }
    false
}

/// Whether every path that was active is active again.
pub open spec fn all_back(saved: Seq<PathInfo>, active: Seq<PathInfo>) -> bool {
    forall|i: int|
        0 <= i < saved.len() && is_active(#[trigger] saved[i]) ==> is_back(saved[i], active)
}

/// Checks that every path that was active is active again.
pub fn verify_restored(saved: &Vec<PathInfo>, active: &Vec<PathInfo>) -> (result: Result<(), String>)
    ensures
        if all_back(saved@, active@) {
            result is Ok
        } else {
            result matches Err(e) && e@
                == "CCD restore verification mismatch: a saved active path is missing"@
        },
{
    for i in 0..saved.len()
        invariant
            forall|j: int|
                0 <= j < i && is_active(#[trigger] saved@[j]) ==> is_back(saved@[j], active@),
    {
        if saved[i].flags % 2 == 1 && !back(&saved[i], active) {
            assert(is_active(saved@[i as int]));
            return Err(
                "CCD restore verification mismatch: a saved active path is missing".to_string(),
            );
        }
    }
    Ok(())
}

/// A topology that is as it was saved passes the check.
pub proof fn law_saved_topology_is_restored(saved: Seq<PathInfo>)
    ensures
        all_back(saved, saved),
{
    assert forall|i: int| 0 <= i < saved.len() && is_active(#[trigger] saved[i]) implies is_back(
        saved[i],
        saved,
    ) by {
        assert(same_source(saved[i], saved[i]) && same_target(saved[i], saved[i]));
    }
}

/// What a change of the number of viewers calls for.
#[derive(Debug, Clone, Copy, PartialEq, Eq, Structural)]
pub enum PrivacyStep {
    Nothing,
    /// The topology is saved and all other displays are turned off.
    Apply,
    /// The saved topology is put back.
    Restore,
}

/// What a number of viewers calls for.
pub open spec fn privacy_step(applied: bool, count: u32) -> PrivacyStep {
    if count > 0 && !applied {
        PrivacyStep::Apply
    } else if count == 0 && applied {
        PrivacyStep::Restore
    } else {
        PrivacyStep::Nothing
    }
}

/// Whether privacy is applied after a step.
pub open spec fn applied_after(applied: bool, step: PrivacyStep) -> bool {
    match step {
        PrivacyStep::Nothing => applied,
        PrivacyStep::Apply => true,
        PrivacyStep::Restore => false,
    }
}

/// Keeps track of whether privacy is applied.
#[derive(Debug)]
pub struct PrivacyController {
    lock_on_disconnect: bool,
    privacy_applied: bool,
}

impl PrivacyController {
    /// Whether privacy is applied.
    pub closed spec fn applied(self) -> bool {
        self.privacy_applied
    }

    /// Whether the workstation is locked when the last viewer leaves.
    pub closed spec fn locks(self) -> bool {
        self.lock_on_disconnect
    }

    /// A controller under which nothing is applied yet.
    pub fn new(lock_on_disconnect: bool) -> (controller: Self)
        ensures
            !controller.applied(),
            controller.locks() == lock_on_disconnect,
    {
        PrivacyController { lock_on_disconnect, privacy_applied: false }
    }

    /// What a number of viewers calls for.
    pub fn update_viewer_count(&self, count: u32) -> (step: PrivacyStep)
        ensures
            step == privacy_step(self.applied(), count),
    {
        if count > 0 {
            if self.privacy_applied {
                PrivacyStep::Nothing
            } else {
                PrivacyStep::Apply
            }
        } else if self.privacy_applied {
            PrivacyStep::Restore
        } else {
            PrivacyStep::Nothing
        }
    }

    /// Takes in that a step was done. Tells whether the workstation is to be
    /// locked: when the displays were put back and that is wished for.
    pub fn step_done(&mut self, step: PrivacyStep) -> (lock: bool)
        ensures
            final(self).applied() == applied_after(old(self).applied(), step),
            final(self).locks() == old(self).locks(),
            lock == (step == PrivacyStep::Restore && old(self).locks()),
    {
        match step {
            PrivacyStep::Nothing => false,
            PrivacyStep::Apply => {
                self.privacy_applied = true;
                false
            },
            PrivacyStep::Restore => {
                self.privacy_applied = false;
                self.lock_on_disconnect
            },
        }
    }

    /// Whether there is a topology to put back when the host ends.
    pub fn needs_restore(&self, snapshot_exists: bool) -> (needed: bool)
        ensures
            needed == (self.applied() || snapshot_exists),
    {
        self.privacy_applied || snapshot_exists
    }

    /// Takes in that the topology was put back when the host ends, or why not.
    pub fn restore(&mut self, outcome: Result<(), String>) -> (result: Result<(), String>)
        ensures
            result == outcome,
            final(self).applied() == (outcome is Err && old(self).applied()),
            final(self).locks() == old(self).locks(),
    {
        outcome?;
        self.privacy_applied = false;
        Ok(())
    }
}

/// Once what a number of viewers calls for is done, privacy is applied exactly
/// when there are viewers, and the same number calls for nothing more.
pub proof fn law_privacy_follows_viewers(applied: bool, count: u32)
    ensures
        applied_after(applied, privacy_step(applied, count)) == (count > 0),
        privacy_step(applied_after(applied, privacy_step(applied, count)), count)
            == PrivacyStep::Nothing,
{
}

/// The four bytes of a number, the low one first.
pub open spec fn le32(n: int) -> Seq<u8> {
    seq![
        (n % 256) as u8,
        (n / 256 % 256) as u8,
        (n / 0x1_0000 % 256) as u8,
        (n / 0x100_0000 % 256) as u8,
    ]
}

/// The number that four bytes stand for, the low one first.
pub open spec fn le32_value(bytes: Seq<u8>) -> int {
    bytes[0] + bytes[1] * 256 + bytes[2] * 0x1_0000 + bytes[3] * 0x100_0000
}

/// Some records of one size in a saved topology: how many, and their bytes.
pub open spec fn section(records: Seq<u8>, size: int) -> Seq<u8> {
    le32(records.len() as int / size) + records
}

/// Appends some records of one size to a saved topology.
fn append_snapshot_vec(bytes: &mut Vec<u8>, records: &[u8], size: usize)
    requires
        size > 0,
    ensures
        final(bytes)@ == old(bytes)@ + section(records@, size as int),
{
    let count: usize = records.len() / size;
    bytes.push((count % 256) as u8);
    bytes.push((count / 256 % 256) as u8);
    bytes.push((count / 0x1_0000 % 256) as u8);
    bytes.push((count / 0x100_0000 % 256) as u8);
    bytes.extend_from_slice(records);
    assert(bytes@ =~= old(bytes)@ + section(records@, size as int));
}

/// A topology as it is saved, out of the bytes of its paths and its modes.
pub fn write_snapshot(paths: &[u8], path_size: usize, modes: &[u8], mode_size: usize) -> (bytes: Vec<
    u8,
>)
    requires
        path_size > 0,
        mode_size > 0,
    ensures
        bytes@ == section(paths@, path_size as int) + section(modes@, mode_size as int),
{
    let mut bytes: Vec<u8> = Vec::new();
    append_snapshot_vec(&mut bytes, paths, path_size);
    append_snapshot_vec(&mut bytes, modes, mode_size);
    assert(bytes@ =~= section(paths@, path_size as int) + section(modes@, mode_size as int));
    bytes
}

/// Where the records end that start at an offset of a saved topology, or why they
/// cannot be read.
pub open spec fn section_end(bytes: Seq<u8>, offset: int, size: int) -> Result<int, Seq<char>> {
    let count = le32_value(bytes.subrange(offset, offset + 4));
    if offset + 4 > usize::MAX {
        Err("privacy topology snapshot offset overflow"@)
    } else if offset + 4 > bytes.len() {
        Err("privacy topology snapshot is truncated"@)
    } else if size * count > usize::MAX {
        Err("privacy topology snapshot size overflow"@)
    } else if offset + 4 + size * count > usize::MAX {
        Err("privacy topology snapshot offset overflow"@)
    } else if offset + 4 + size * count > bytes.len() {
        Err("privacy topology snapshot is truncated"@)
    } else {
        Ok(offset + 4 + size * count)
    }
}

/// The bytes of the paths and of the modes of a saved topology, or why they
/// cannot be read.
pub open spec fn snapshot_parts(bytes: Seq<u8>, path_size: int, mode_size: int) -> Result<
    (Seq<u8>, Seq<u8>),
    Seq<char>,
> {
    match section_end(bytes, 0, path_size) {
        Err(text) => Err(text),
        Ok(middle) => match section_end(bytes, middle, mode_size) {
            Err(text) => Err(text),
            Ok(end) => if end != bytes.len() {
                Err("privacy topology snapshot contains trailing data"@)
            } else {
                Ok((bytes.subrange(4, middle), bytes.subrange(middle + 4, end)))
            },
        },
    }
}

fn read_snapshot_vec(bytes: &[u8], offset: usize, size: usize) -> (result: Result<
    (Vec<u8>, usize),
    String,
>)
    requires
        offset <= bytes@.len(),
    ensures
        match section_end(bytes@, offset as int, size as int) {
            Ok(end) => result matches Ok(found) && found.0@ == bytes@.subrange(offset + 4, end)
                && found.1 == end && end <= bytes@.len(),
            Err(text) => result matches Err(e) && e@ == text,
        },
{
    let body: usize = match offset.checked_add(4) {
        Some(body) => body,
        None => {
            return Err("privacy topology snapshot offset overflow".to_string());
        },
    };
    if body > bytes.len() {
        return Err("privacy topology snapshot is truncated".to_string());
    }
    let count: u32 = bytes[offset] as u32 + bytes[offset + 1] as u32 * 256 + bytes[offset + 2] as u32
        * 0x1_0000 + bytes[offset + 3] as u32 * 0x100_0000;
    assert(count == le32_value(bytes@.subrange(offset as int, offset + 4)));
    let length: usize = match size.checked_mul(count as usize) {
        Some(length) => length,
        None => {
            return Err("privacy topology snapshot size overflow".to_string());
        },
    };
    let end: usize = match body.checked_add(length) {
        Some(end) => end,
        None => {
            return Err("privacy topology snapshot offset overflow".to_string());
        },
    };
    if end > bytes.len() {
        return Err("privacy topology snapshot is truncated".to_string());
    }
    let records: Vec<u8> = slice_to_vec(slice_subrange(bytes, body, end));
    Ok((records, end))
}

/// Reads a saved topology: the bytes of its paths and of its modes.
pub fn read_snapshot(bytes: &[u8], path_size: usize, mode_size: usize) -> (result: Result<
    (Vec<u8>, Vec<u8>),
    String,
>)
    ensures
        match snapshot_parts(bytes@, path_size as int, mode_size as int) {
            Ok(parts) => result matches Ok(found) && found.0@ == parts.0 && found.1@ == parts.1,
            Err(text) => result matches Err(e) && e@ == text,
        },
{
    let (paths, middle) = read_snapshot_vec(bytes, 0, path_size)?;
    let (modes, end) = read_snapshot_vec(bytes, middle, mode_size)?;
    if end != bytes.len() {
        return Err("privacy topology snapshot contains trailing data".to_string());
    }
    Ok((paths, modes))
}

/// A topology that was saved reads back as it was, as long as its records are
/// whole, can be counted in 32 bits, and fit into memory together.
pub proof fn law_snapshot_round_trip(
    paths: Seq<u8>,
    path_size: int,
    modes: Seq<u8>,
    mode_size: int,
)
    requires
        path_size > 0,
        mode_size > 0,
        paths.len() as int % path_size == 0,
        modes.len() as int % mode_size == 0,
        paths.len() as int / path_size < 0x1_0000_0000,
        modes.len() as int / mode_size < 0x1_0000_0000,
        paths.len() + modes.len() + 8 <= usize::MAX,
    ensures
        snapshot_parts(section(paths, path_size) + section(modes, mode_size), path_size, mode_size)
            == Ok::<(Seq<u8>, Seq<u8>), Seq<char>>((paths, modes)),
{
    let bytes = section(paths, path_size) + section(modes, mode_size);
    let path_count = paths.len() as int / path_size;
    let mode_count = modes.len() as int / mode_size;
    let middle = 4 + paths.len() as int;
    vstd::arithmetic::div_mod::lemma_fundamental_div_mod(paths.len() as int, path_size);
    vstd::arithmetic::div_mod::lemma_fundamental_div_mod(modes.len() as int, mode_size);
    vstd::arithmetic::div_mod::lemma_div_pos_is_pos(paths.len() as int, path_size);
    vstd::arithmetic::div_mod::lemma_div_pos_is_pos(modes.len() as int, mode_size);
    lemma_le32_value(path_count);
    lemma_le32_value(mode_count);
    assert(bytes.subrange(0, 4) =~= le32(path_count));
    assert(bytes.subrange(middle, middle + 4) =~= le32(mode_count));
    assert(bytes.subrange(4, middle) =~= paths);
    assert(bytes.subrange(middle + 4, bytes.len() as int) =~= modes);
}

proof fn lemma_le32_value(n: int)
    requires
        0 <= n < 0x1_0000_0000,
    ensures
        le32_value(le32(n)) == n,
{
}

/// Under privacy a path keeps all but its lowest flag, and its place.
pub proof fn law_private_paths_keep_the_rest(paths: Seq<PathInfo>, index: int, other: int)
    requires
        0 <= other < paths.len(),
    ensures
        ({
            let path = alone(paths, index)[other];
            &&& alone(paths, index).len() == paths.len()
            &&& path.flags % 2 == if other == index {
                1int
            } else {
                0
            }
            &&& path.flags / 2 == paths[other].flags / 2
            &&& path == (PathInfo { flags: path.flags, ..paths[other] })
        }),
{
}

/// A single active path of another name breaks privacy.
pub proof fn law_one_other_source_breaks_privacy(
    paths: Seq<PathInfo>,
    names: Seq<String>,
    expected: Seq<char>,
    i: int,
)
    requires
        0 <= i < paths.len(),
    ensures
        only_named_active(paths, names, expected) && paths[i].flags % 2 == 1 ==> names[i]@
            == expected,
        (forall|k: int|
            0 <= k < paths.len() ==> (#[trigger] paths[k]).flags % 2 == 0 || names[k]@ == expected)
            ==> only_named_active(paths, names, expected),
{
    let path = paths[i];
}

/// A saved path is back where an active one has its source and its target, and a
/// topology is back where each of its active paths is.
pub proof fn law_every_saved_path_counts(
    saved: Seq<PathInfo>,
    active: Seq<PathInfo>,
    i: int,
    k: int,
)
    requires
        0 <= i < saved.len(),
        0 <= k < active.len(),
    ensures
        all_back(saved, active) && saved[i].flags % 2 == 1 ==> is_back(saved[i], active),
        (forall|j: int|
            0 <= j < saved.len() ==> (#[trigger] saved[j]).flags % 2 == 0 || is_back(
                saved[j],
                active,
            )) ==> all_back(saved, active),
        active[k].flags % 2 == 1 && active[k].source_adapter == saved[i].source_adapter
            && active[k].source_id == saved[i].source_id && active[k].target_adapter
            == saved[i].target_adapter && active[k].target_id == saved[i].target_id ==> is_back(
            saved[i],
            active,
        ),
        is_back(saved[i], active) ==> exists|j: int|
            0 <= j < active.len() && (#[trigger] active[j]).flags % 2 == 1
                && active[j].source_adapter == saved[i].source_adapter && active[j].source_id
                == saved[i].source_id && active[j].target_adapter == saved[i].target_adapter
                && active[j].target_id == saved[i].target_id,
{
    let path = saved[i];
    if is_active(active[k]) && same_source(active[k], path) && same_target(active[k], path) {
        assert(is_back(path, active));
    }
    if is_back(path, active) {
        let j = choose|j: int|
            0 <= j < active.len() && is_active(#[trigger] active[j]) && same_source(active[j], path)
                && same_target(active[j], path);
        assert(active[j].flags % 2 == 1);
    }
}

/// Privacy is applied for the first viewer and ended after the last one.
pub proof fn law_viewers_call_for_privacy(count: u32)
    ensures
        count > 0 ==> privacy_step(false, count) == PrivacyStep::Apply,
        count > 0 ==> privacy_step(true, count) == PrivacyStep::Nothing,
        count == 0 ==> privacy_step(true, count) == PrivacyStep::Restore,
        count == 0 ==> privacy_step(false, count) == PrivacyStep::Nothing,
        forall|applied: bool| #[trigger] applied_after(applied, PrivacyStep::Nothing) == applied,
        forall|applied: bool| #[trigger] applied_after(applied, PrivacyStep::Apply),
        forall|applied: bool| !#[trigger] applied_after(applied, PrivacyStep::Restore),
{
}

/// Saved records are led by their number in four bytes, the low one first.
pub proof fn law_saved_records_are_counted(records: Seq<u8>, size: int, count: int)
    requires
        size > 0,
        records.len() == size * count,
        0 <= count < 0x1_0000_0000,
    ensures
        ({
            let bytes = section(records, size);
            &&& bytes.len() == 4 + records.len()
            &&& bytes[0] + 0x100 * bytes[1] + 0x1_0000 * bytes[2] + 0x100_0000 * bytes[3] == count
            &&& bytes.subrange(4, bytes.len() as int) == records
        }),
{
    assert(records.len() as int / size == count) by (nonlinear_arith)
        requires
            size > 0,
            records.len() as int == size * count,
    ;
    lemma_le32_value(count);
    let bytes = section(records, size);
    assert(bytes[0] == le32(count)[0] && bytes[1] == le32(count)[1] && bytes[2] == le32(count)[2]
        && bytes[3] == le32(count)[3]);
    assert(bytes.subrange(4, bytes.len() as int) =~= records);
}

/// Where saved records end, and what keeps them from being read.
pub proof fn law_saved_records_end(bytes: Seq<u8>, offset: int, size: int)
    requires
        0 <= offset <= bytes.len() <= usize::MAX,
        0 <= size,
    ensures
        ({
            let result = section_end(bytes, offset, size);
            let count = bytes[offset] + 0x100 * bytes[offset + 1] + 0x1_0000 * bytes[offset + 2]
                + 0x100_0000 * bytes[offset + 3];
            &&& result is Ok <==> offset + 4 <= bytes.len() && offset + 4 + size * count
                <= bytes.len()
            &&& result matches Ok(end) ==> end == offset + 4 + size * count
            &&& offset + 4 > usize::MAX ==> result == Err::<int, Seq<char>>(
                "privacy topology snapshot offset overflow"@,
            )
            &&& bytes.len() < offset + 4 <= usize::MAX ==> result == Err::<int, Seq<char>>(
                "privacy topology snapshot is truncated"@,
            )
            &&& offset + 4 <= bytes.len() && size * count > usize::MAX ==> result == Err::<
                int,
                Seq<char>,
            >("privacy topology snapshot size overflow"@)
            &&& offset + 4 <= bytes.len() && size * count <= usize::MAX && offset + 4 + size * count
                > usize::MAX ==> result == Err::<int, Seq<char>>(
                "privacy topology snapshot offset overflow"@,
            )
            &&& offset + 4 <= bytes.len() < offset + 4 + size * count <= usize::MAX ==> result
                == Err::<int, Seq<char>>("privacy topology snapshot is truncated"@)
        }),
{
    if offset + 4 <= bytes.len() {
        let head = bytes.subrange(offset, offset + 4);
        assert(head[0] == bytes[offset] && head[1] == bytes[offset + 1] && head[2] == bytes[offset
            + 2] && head[3] == bytes[offset + 3]);
    }
}

/// A saved topology is its paths and its modes, with nothing behind them.
pub proof fn law_saved_topologies_have_two_parts(bytes: Seq<u8>, path_size: int, mode_size: int)
    requires
        0 <= path_size,
        0 <= mode_size,
    ensures
        ({
            let result = snapshot_parts(bytes, path_size, mode_size);
            match section_end(bytes, 0, path_size) {
                Err(text) => result == Err::<(Seq<u8>, Seq<u8>), Seq<char>>(text),
                Ok(middle) => match section_end(bytes, middle, mode_size) {
                    Err(text) => result == Err::<(Seq<u8>, Seq<u8>), Seq<char>>(text),
                    Ok(end) => {
                        &&& end < bytes.len() ==> result == Err::<(Seq<u8>, Seq<u8>), Seq<char>>(
                            "privacy topology snapshot contains trailing data"@,
                        )
                        &&& end == bytes.len() ==> result == Ok::<(Seq<u8>, Seq<u8>), Seq<char>>(
                            (bytes.subrange(4, middle), bytes.subrange(middle + 4, end)),
                        )
                    },
                },
            }
        }),
{
}

} // verus!
