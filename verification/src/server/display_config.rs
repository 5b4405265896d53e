//! Display topologies: which source drives which target, and in which mode.

use vstd::prelude::*;

use crate::server::display::DisplayInfo;
use crate::text::{
    decimal, push_decimal, push_signed_decimal, push_upper_hex, signed_decimal, upper_hex,
};

verus! {

/// Index of a mode that a path does not have.
pub const MODE_INDEX_INVALID: u32 = 0xffff_ffff;

/// Status of a query whose buffers became too small.
pub const INSUFFICIENT_BUFFER: u32 = 122;

/// Times that a topology is queried before it counts as unsettled.
pub const QUERY_RETRIES: u32 = 4;

/// Identity of a display adapter.
#[derive(Debug, Clone, Copy, PartialEq, Eq, Structural)]
pub struct Luid {
    pub low: u32,
    pub high: i32,
}

/// The identity of an adapter as one number, the high part above the low one.
pub open spec fn luid_number(luid: Luid) -> int {
    (if luid.high < 0 {
        luid.high + 0x1_0000_0000
    } else {
        luid.high as int
    }) * 0x1_0000_0000 + luid.low
}

/// The identity of an adapter as one number.
pub fn luid_value(luid: Luid) -> (value: u64)
    ensures
        value == luid_number(luid),
{
    let high: u64 = if luid.high < 0 {
        (luid.high as i64 + 0x1_0000_0000) as u64
    } else {
        luid.high as u64
    };
    high * 0x1_0000_0000 + luid.low as u64
}

/// Different adapters have different numbers.
pub proof fn law_luid_value_is_unique(a: Luid, b: Luid)
    requires
        luid_number(a) == luid_number(b),
    ensures
        a == b,
{
}

/// A path from a source to a target. Its lowest flag tells whether it is active.
#[derive(Debug, Clone, Copy, PartialEq, Eq, Structural)]
pub struct PathInfo {
    pub flags: u32,
    pub source_adapter: Luid,
    pub source_id: u32,
    pub source_mode: u32,
    pub target_adapter: Luid,
    pub target_id: u32,
    pub target_mode: u32,
    pub target_available: bool,
    pub refresh_numerator: u32,
    pub refresh_denominator: u32,
}

/// Kinds of modes.
#[derive(Debug, Clone, Copy, PartialEq, Eq, Structural)]
pub enum ModeKind {
    Source,
    Target,
    Other,
}

/// A place on the desktop.
#[derive(Debug, Clone, Copy, PartialEq, Eq, Structural)]
pub struct Point {
    pub x: i32,
    pub y: i32,
}

/// The mode of a source.
#[derive(Debug, Clone, Copy, PartialEq, Eq, Structural)]
pub struct SourceMode {
    pub width: u32,
    pub height: u32,
    pub position: Point,
}

/// The signal to a target.
#[derive(Debug, Clone, Copy, PartialEq, Eq, Structural)]
pub struct SignalInfo {
    pub active_width: u32,
    pub active_height: u32,
    pub total_width: u32,
    pub total_height: u32,
    pub vsync_numerator: u32,
    pub vsync_denominator: u32,
    pub pixel_rate: u64,
}

/// A mode. What it holds is told in both readings; its kind says which one counts.
#[derive(Debug, Clone, Copy, PartialEq, Eq, Structural)]
pub struct ModeInfo {
    pub kind: ModeKind,
    pub source: SourceMode,
    pub signal: SignalInfo,
}

/// A topology.
#[derive(Debug)]
pub struct DisplayConfig {
    pub paths: Vec<PathInfo>,
    pub modes: Vec<ModeInfo>,
}

/// A topology, with sequences of paths and modes.
#[verifier::ext_equal]
pub struct ConfigView {
    pub paths: Seq<PathInfo>,
    pub modes: Seq<ModeInfo>,
}

impl View for DisplayConfig {
    type V = ConfigView;

    open spec fn view(&self) -> ConfigView {
        ConfigView { paths: self.paths@, modes: self.modes@ }
    }
}

/// Whether a path is active.
pub open spec fn is_active(path: PathInfo) -> bool {
    path.flags % 2 == 1
}

/// A path made active.
pub open spec fn activated(path: PathInfo) -> PathInfo {
    PathInfo {
        flags: if is_active(path) {
            path.flags
        } else {
            (path.flags + 1) as u32
        },
        ..path
    }
}

/// A path made inactive.
pub open spec fn deactivated(path: PathInfo) -> PathInfo {
    PathInfo { flags: (path.flags - path.flags % 2) as u32, ..path }
}

/// Whether two paths start at one source.
pub open spec fn same_source(a: PathInfo, b: PathInfo) -> bool {
    a.source_adapter == b.source_adapter && a.source_id == b.source_id
}

/// Whether two paths end at one target.
pub open spec fn same_target(a: PathInfo, b: PathInfo) -> bool {
    a.target_adapter == b.target_adapter && a.target_id == b.target_id
}

/// The paths among the first `n` whose source has a name, in order.
pub open spec fn named(names: Seq<String>, expected: Seq<char>, n: int) -> Seq<int>
    decreases n,
{
    if n <= 0 {
        Seq::empty()
    } else if names[n - 1]@ == expected {
        named(names, expected, n - 1).push(n - 1)
    } else {
        named(names, expected, n - 1)
    }
}

/// Those of the first `n` listed paths whose source is on an adapter.
pub open spec fn on_adapter(paths: Seq<PathInfo>, listed: Seq<int>, luid: u64, n: int) -> Seq<int>
    decreases n,
{
    if n <= 0 {
        Seq::empty()
    } else if luid_number(paths[listed[n - 1]].source_adapter) == luid {
        on_adapter(paths, listed, luid, n - 1).push(listed[n - 1])
    } else {
        on_adapter(paths, listed, luid, n - 1)
    }
}

/// The path whose source has a name. Where several have it, the adapter decides.
pub open spec fn source_path(
    paths: Seq<PathInfo>,
    names: Seq<String>,
    luid: u64,
    expected: Seq<char>,
) -> Result<int, Seq<char>> {
    let listed = named(names, expected, paths.len() as int);
    let there = on_adapter(paths, listed, luid, listed.len() as int);
    if listed.len() == 0 {
        Err("CCD path never appeared for source "@ + expected)
    } else if listed.len() == 1 {
        Ok(listed[0])
    } else if there.len() == 1 {
        Ok(there[0])
    } else {
        Err(
            "CCD source "@ + expected + " is ambiguous across "@ + decimal(listed.len())
                + " paths (DXGI adapter LUID 0x"@ + upper_hex(luid as nat, 16) + ")"@,
        )
    }
}

proof fn lemma_named_in_range(names: Seq<String>, expected: Seq<char>, n: int)
    ensures
        forall|k: int|
            0 <= k < named(names, expected, n).len() ==> 0 <= #[trigger] named(
                names,
                expected,
                n,
            )[k] < n,
        named(names, expected, n).len() <= if n < 0 { 0 } else { n },
    decreases n,
{
    if n > 0 {
        lemma_named_in_range(names, expected, n - 1);
    }
}

/// Finds the path whose source has a name, with the number of its adapter.
/// `names` holds the name of the source of each path.
pub fn find_source_path(
    paths: &Vec<PathInfo>,
    names: &Vec<String>,
    dxgi_adapter_luid: u64,
    expected_name: &str,
) -> (result: Result<(usize, u64), String>)
    requires
        names@.len() == paths@.len(),
    ensures
        match source_path(paths@, names@, dxgi_adapter_luid, expected_name@) {
            Ok(at) => result matches Ok(found) && found.0 == at && 0 <= at < paths@.len() && found.1
                == luid_number(paths@[at].source_adapter),
            Err(text) => result matches Err(e) && e@ == text,
        },
{
    let expected: String = expected_name.to_string();
    let mut matches: Vec<usize> = Vec::new();
    for i in 0..paths.len()
        invariant
            names@.len() == paths@.len(),
            expected@ == expected_name@,
            matches@.len() == named(names@, expected_name@, i as int).len(),
            forall|k: int|
                0 <= k < matches@.len() ==> #[trigger] matches@[k] == named(
                    names@,
                    expected_name@,
                    i as int,
                )[k],
    {
        if names[i] == expected {
            matches.push(i);
        }
    }
    let ghost listed = named(names@, expected_name@, paths@.len() as int);
    proof {
        lemma_named_in_range(names@, expected_name@, paths@.len() as int);
    }
    if matches.len() == 0 {
        let mut text = "CCD path never appeared for source ".to_string();
        text.append(expected_name);
        return Err(text);
    }
    if matches.len() == 1 {
        let at: usize = matches[0];
        assert(at == listed[0]);
        return Ok((at, luid_value(paths[at].source_adapter)));
    }
    let mut there: Vec<usize> = Vec::new();
    for k in 0..matches.len()
        invariant
            matches@.len() == listed.len(),
            forall|k: int| 0 <= k < matches@.len() ==> #[trigger] matches@[k] == listed[k],
            forall|k: int| 0 <= k < listed.len() ==> 0 <= #[trigger] listed[k] < paths@.len(),
            there@.len() == on_adapter(paths@, listed, dxgi_adapter_luid, k as int).len(),
            forall|j: int|
                0 <= j < there@.len() ==> #[trigger] there@[j] == on_adapter(
                    paths@,
                    listed,
                    dxgi_adapter_luid,
                    k as int,
                )[j],
            forall|j: int| 0 <= j < there@.len() ==> #[trigger] there@[j] < paths@.len(),
    {
        let at: usize = matches[k];
        assert(at == listed[k as int]);
        if luid_value(paths[at].source_adapter) == dxgi_adapter_luid {
            there.push(at);
        }
    }
    if there.len() == 1 {
        let at: usize = there[0];
        return Ok((at, luid_value(paths[at].source_adapter)));
    }
    let mut text = "CCD source ".to_string();
    text.append(expected_name);
    text.append(" is ambiguous across ");
    push_decimal(&mut text, matches.len() as u64);
    text.append(" paths (DXGI adapter LUID 0x");
    push_upper_hex(&mut text, dxgi_adapter_luid, 16);
    text.append(")");
    Err(text)
}

/// Whether another active path starts at the source of a path.
pub open spec fn shares_source(paths: Seq<PathInfo>, index: int) -> bool {
    exists|other: int|
        0 <= other < paths.len() && other != index && is_active(#[trigger] paths[other])
            && same_source(paths[other], paths[index])
}

/// Whether another active path starts at the source of a path.
pub fn has_duplicate_active_source(paths: &Vec<PathInfo>, index: usize) -> (shared: bool)
    requires
        index < paths@.len(),
    ensures
        shared == shares_source(paths@, index as int),
{
    for other in 0..paths.len()
        invariant
            index < paths@.len(),
            forall|i: int|
                0 <= i < other && i != index && is_active(#[trigger] paths@[i]) ==> !same_source(
                    paths@[i],
                    paths@[index as int],
                ),
    {
        if other != index && paths[other].flags % 2 == 1 && paths[other].source_adapter
            == paths[index].source_adapter && paths[other].source_id == paths[index].source_id {
            assert(is_active(paths@[other as int]));
            return true;
        }
    }
    false
}

/// The mode of the source of a path.
pub fn source_mode_index(path: &PathInfo) -> (result: Result<usize, String>)
    ensures
        if path.source_mode == MODE_INDEX_INVALID {
            result matches Err(e) && e@ == "CCD path has no source mode"@
        } else {
            result == Ok::<usize, String>(path.source_mode as usize)
        },
{
    if path.source_mode == MODE_INDEX_INVALID {
        Err("CCD path has no source mode".to_string())
    } else {
        Ok(path.source_mode as usize)
    }
}

/// The mode of the target of a path.
pub fn target_mode_index(path: &PathInfo) -> (result: Result<usize, String>)
    ensures
        if path.target_mode == MODE_INDEX_INVALID {
            result matches Err(e) && e@ == "CCD path has no target mode"@
        } else {
            result == Ok::<usize, String>(path.target_mode as usize)
        },
{
    if path.target_mode == MODE_INDEX_INVALID {
        Err("CCD path has no target mode".to_string())
    } else {
        Ok(path.target_mode as usize)
    }
}

/// The text for an index that is no mode.
pub open spec fn mode_index_text(prefix: Seq<char>, index: int, suffix: Seq<char>) -> Seq<char> {
    prefix + decimal(index as nat) + suffix
}

fn mode_index_error(prefix: &str, index: usize, suffix: &str) -> (text: String)
    ensures
        text@ == mode_index_text(prefix@, index as int, suffix@),
{
    let mut text = prefix.to_string();
    push_decimal(&mut text, index as u64);
    text.append(suffix);
    text
}

/// A path with copies of its modes behind the modes of a topology, or why it
/// cannot be taken over.
pub open spec fn copied_path(path: PathInfo, available: Seq<ModeInfo>, modes: Seq<ModeInfo>) -> Result<
    PathInfo,
    Seq<char>,
> {
    if path.source_mode == MODE_INDEX_INVALID {
        Err("CCD path has no source mode"@)
    } else if path.target_mode == MODE_INDEX_INVALID {
        Err("CCD path has no target mode"@)
    } else if path.source_mode >= available.len() {
        Err(
            mode_index_text(
                "CCD candidate source mode index "@,
                path.source_mode as int,
                " is invalid"@,
            ),
        )
    } else if path.target_mode >= available.len() {
        Err(
            mode_index_text(
                "CCD candidate target mode index "@,
                path.target_mode as int,
                " is invalid"@,
            ),
        )
    } else if available[path.source_mode as int].kind != ModeKind::Source
        || available[path.target_mode as int].kind != ModeKind::Target {
        Err("CCD candidate path has invalid source/target modes"@)
    } else {
        Ok(
            PathInfo {
                source_mode: modes.len() as u32,
                target_mode: (modes.len() + 1) as u32,
                ..path
            },
        )
    }
}

/// Takes a path over into a topology: its modes are copied behind those that are
/// there. Where that cannot be done, the modes stay as they are.
pub fn copy_path_modes(path: &PathInfo, available: &Vec<ModeInfo>, modes: &mut Vec<ModeInfo>) -> (result:
    Result<PathInfo, String>)
    requires
        old(modes)@.len() + 1 < MODE_INDEX_INVALID,
    ensures
        match copied_path(*path, available@, old(modes)@) {
            Ok(copied) => {
                &&& result == Ok::<PathInfo, String>(copied)
                &&& final(modes)@ == old(modes)@.push(available@[path.source_mode as int]).push(
                    available@[path.target_mode as int],
                )
            },
            Err(text) => {
                &&& result matches Err(e) && e@ == text
                &&& final(modes)@ == old(modes)@
            },
        },
{
    let source_index: usize = source_mode_index(path)?;
    let target_index: usize = target_mode_index(path)?;
    if source_index >= available.len() {
        return Err(
            mode_index_error("CCD candidate source mode index ", source_index, " is invalid"),
        );
    }
    if target_index >= available.len() {
        return Err(
            mode_index_error("CCD candidate target mode index ", target_index, " is invalid"),
        );
    }
    if available[source_index].kind != ModeKind::Source || available[target_index].kind
        != ModeKind::Target {
        return Err("CCD candidate path has invalid source/target modes".to_string());
    }
    let count: usize = modes.len();
    modes.push(available[source_index]);
    modes.push(available[target_index]);
    Ok(PathInfo { source_mode: count as u32, target_mode: (count + 1) as u32, ..*path })
}

/// Whether a path can replace one whose source is shared: it ends at the same
/// target, which is there, and no path of the topology starts at its source.
pub open spec fn is_replacement(candidate: PathInfo, shared: PathInfo, paths: Seq<PathInfo>) -> bool {
    &&& same_target(candidate, shared)
    &&& candidate.target_available
    &&& forall|i: int| 0 <= i < paths.len() ==> !same_source(#[trigger] paths[i], candidate)
}

fn replaces(candidate: &PathInfo, shared: &PathInfo, paths: &Vec<PathInfo>) -> (fit: bool)
    ensures
        fit == is_replacement(*candidate, *shared, paths@),
{
    if candidate.target_adapter != shared.target_adapter || candidate.target_id != shared.target_id
        || !candidate.target_available {
        return false;
    }
    for i in 0..paths.len()
        invariant
            forall|j: int| 0 <= j < i ==> !same_source(#[trigger] paths@[j], *candidate),
    {
        if paths[i].source_adapter == candidate.source_adapter && paths[i].source_id
            == candidate.source_id {
            assert(same_source(paths@[i as int], *candidate));
            return false;
        }
    }
    true
}

/// The first path from position `from` on that can replace a shared one.
pub open spec fn replacement(
    all: Seq<PathInfo>,
    shared: PathInfo,
    paths: Seq<PathInfo>,
    from: int,
) -> Option<PathInfo>
    decreases all.len() - from,
{
    if from >= all.len() {
        None
    } else if is_replacement(all[from], shared, paths) {
        Some(all[from])
    } else {
        replacement(all, shared, paths, from + 1)
    }
}

/// A topology in which a path has a source of its own, or why there is none.
pub open spec fn extended(config: ConfigView, index: int, all: ConfigView) -> Result<
    ConfigView,
    Seq<char>,
> {
    match replacement(all.paths, config.paths[index], config.paths, 0) {
        None => Err(
            mode_index_text(
                "CCD target "@,
                config.paths[index].target_id as int,
                " has no independent source path for Extend"@,
            ),
        ),
        Some(path) => match copied_path(path, all.modes, config.modes) {
            Err(text) => Err(text),
            Ok(copied) => Ok(
                ConfigView {
                    paths: config.paths.update(index, copied),
                    modes: config.modes.push(all.modes[path.source_mode as int]).push(
                        all.modes[path.target_mode as int],
                    ),
                },
            ),
        },
    }
}

/// Gives a path a source of its own, out of all the paths that there are.
pub fn extend_path(config: DisplayConfig, index: usize, all: &DisplayConfig) -> (result: Result<
    DisplayConfig,
    String,
>)
    requires
        index < config.paths@.len(),
        config.modes@.len() + 1 < MODE_INDEX_INVALID,
    ensures
        match extended(config@, index as int, all@) {
            Ok(expected) => result matches Ok(found) && found@ == expected,
            Err(text) => result matches Err(e) && e@ == text,
        },
{
    let mut config: DisplayConfig = config;
    let shared: PathInfo = config.paths[index];
    let mut at: usize = 0;
    while at < all.paths.len() && !replaces(&all.paths[at], &shared, &config.paths)
        invariant
            at <= all.paths@.len(),
            replacement(all.paths@, shared, config.paths@, 0) == replacement(
                all.paths@,
                shared,
                config.paths@,
                at as int,
            ),
        decreases all.paths@.len() - at,
    {
        at = at + 1;
    }
    if at >= all.paths.len() {
        let mut text = "CCD target ".to_string();
        push_decimal(&mut text, shared.target_id as u64);
        text.append(" has no independent source path for Extend");
        return Err(text);
    }
    let path: PathInfo = all.paths[at];
    let copied: PathInfo = copy_path_modes(&path, &all.modes, &mut config.modes)?;
    config.paths[index] = copied;
    Ok(config)
}

/// A coordinate brought into 32 bits.
pub open spec fn saturated(n: int) -> int {
    if n > i32::MAX {
        i32::MAX as int
    } else if n < i32::MIN {
        i32::MIN as int
    } else {
        n
    }
}

/// The right edge of a source. The width is read as a signed number.
pub open spec fn right_edge(mode: SourceMode) -> int {
    saturated(
        mode.position.x + if mode.width > i32::MAX {
            mode.width - 0x1_0000_0000
        } else {
            mode.width as int
        },
    )
}

fn right_edge_of(mode: &SourceMode) -> (edge: i32)
    ensures
        edge == right_edge(*mode),
{
    let width: i64 = if mode.width > i32::MAX as u32 {
        mode.width as i64 - 0x1_0000_0000
    } else {
        mode.width as i64
    };
    let sum: i64 = mode.position.x as i64 + width;
    if sum > i32::MAX as i64 {
        i32::MAX
    } else if sum < i32::MIN as i64 {
        i32::MIN
    } else {
        sum as i32
    }
}

/// The right edge of the desktop, as far as the first `n` paths reach, without one
/// of them. The first active path without a mode spoils it.
pub open spec fn rightmost(config: ConfigView, without: int, n: int) -> Result<int, Seq<char>>
    decreases n,
{
    if n <= 0 {
        Ok(0)
    } else {
        let path = config.paths[n - 1];
        match rightmost(config, without, n - 1) {
            Err(text) => Err(text),
            Ok(edge) => if n - 1 == without || !is_active(path) {
                Ok(edge)
            } else if path.source_mode == MODE_INDEX_INVALID {
                Err("CCD path has no source mode"@)
            } else if path.source_mode >= config.modes.len() {
                Err(
                    mode_index_text(
                        "CCD source mode index "@,
                        path.source_mode as int,
                        " is invalid"@,
                    ),
                )
            } else {
                let right = right_edge(config.modes[path.source_mode as int].source);
                Ok(
                    if right > edge {
                        right
                    } else {
                        edge
                    },
                )
            },
        }
    }
}

proof fn lemma_rightmost_fails(config: ConfigView, without: int, n: int, all: int)
    requires
        n <= all,
        rightmost(config, without, n) is Err,
    ensures
        rightmost(config, without, all) == rightmost(config, without, n),
    decreases all - n,
{
    if n < all && all > 0 {
        lemma_rightmost_fails(config, without, n, all - 1);
    }
}

/// A place to the right of all other active sources.
pub fn non_overlapping_position(config: &DisplayConfig, virtual_index: usize) -> (result: Result<
    Point,
    String,
>)
    ensures
        match rightmost(config@, virtual_index as int, config.paths@.len() as int) {
            Ok(edge) => result matches Ok(point) && point.x == edge && point.y == 0,
            Err(text) => result matches Err(e) && e@ == text,
        },
{
    let mut edge: i32 = 0;
    for index in 0..config.paths.len()
        invariant
            rightmost(config@, virtual_index as int, index as int) == Ok::<int, Seq<char>>(
                edge as int,
            ),
    {
        let path: &PathInfo = &config.paths[index];
        if index != virtual_index && path.flags % 2 == 1 {
            if path.source_mode == MODE_INDEX_INVALID {
                proof {
                    lemma_rightmost_fails(
                        config@,
                        virtual_index as int,
                        index + 1,
                        config.paths@.len() as int,
                    );
                }
                return Err("CCD path has no source mode".to_string());
            }
            let source_index: usize = path.source_mode as usize;
            if source_index >= config.modes.len() {
                proof {
                    lemma_rightmost_fails(
                        config@,
                        virtual_index as int,
                        index + 1,
                        config.paths@.len() as int,
                    );
                }
                return Err(
                    mode_index_error("CCD source mode index ", source_index, " is invalid"),
                );
            }
            let right: i32 = right_edge_of(&config.modes[source_index].source);
            if right > edge {
                edge = right;
            }
        }
    }
    Ok(Point { x: edge, y: 0 })
}

/// The new display overlaps no active source that lies where coordinates do not
/// overflow: it starts at or behind the right edge of each.
pub proof fn law_position_is_free(config: ConfigView, without: int, index: int, edge: int)
    requires
        rightmost(config, without, config.paths.len() as int) == Ok::<int, Seq<char>>(edge),
        0 <= index < config.paths.len(),
        index != without,
        is_active(config.paths[index]),
    ensures
        config.paths[index].source_mode < config.modes.len(),
        right_edge(config.modes[config.paths[index].source_mode as int].source) <= edge,
{
    lemma_edge_covers(config, without, index, config.paths.len() as int);
}

proof fn lemma_edge_covers(config: ConfigView, without: int, index: int, n: int)
    requires
        rightmost(config, without, n) is Ok,
        0 <= index < n <= config.paths.len(),
        index != without,
        is_active(config.paths[index]),
    ensures
        config.paths[index].source_mode < config.modes.len(),
        right_edge(config.modes[config.paths[index].source_mode as int].source) <= rightmost(
            config,
            without,
            n,
        )->Ok_0,
    decreases n,
{
    if index < n - 1 {
        lemma_edge_covers(config, without, index, n - 1);
    }
}

/// The mode of a source at a size and a place.
pub open spec fn placed(mode: ModeInfo, width: u32, height: u32, position: Point) -> ModeInfo {
    ModeInfo { source: SourceMode { width, height, position }, ..mode }
}

/// The signal of a target at a size and a rate.
pub open spec fn signalled(mode: ModeInfo, width: u32, height: u32, refresh_hz: u32) -> ModeInfo {
    ModeInfo {
        signal: SignalInfo {
            active_width: width,
            active_height: height,
            total_width: width,
            total_height: height,
            vsync_numerator: refresh_hz,
            vsync_denominator: 1,
            pixel_rate: (width * height * refresh_hz) as u64,
        },
        ..mode
    }
}

/// A topology with a path active at a mode, beside all others, and where it lies;
/// or why there is none.
pub open spec fn with_mode(
    config: ConfigView,
    index: int,
    width: u32,
    height: u32,
    refresh_hz: u32,
) -> Result<(ConfigView, Point), Seq<char>> {
    let path = config.paths[index];
    match rightmost(config, index, config.paths.len() as int) {
        Err(text) => Err(text),
        Ok(edge) => {
            let position = Point { x: edge as i32, y: 0 };
            if path.source_mode == MODE_INDEX_INVALID {
                Err("CCD path has no source mode"@)
            } else if path.target_mode == MODE_INDEX_INVALID {
                Err("CCD path has no target mode"@)
            } else if path.source_mode >= config.modes.len() {
                Err(
                    mode_index_text(
                        "CCD source mode index "@,
                        path.source_mode as int,
                        " is invalid"@,
                    ),
                )
            } else if config.modes[path.source_mode as int].kind != ModeKind::Source {
                Err(
                    mode_index_text(
                        "CCD source mode index "@,
                        path.source_mode as int,
                        " is not a source mode"@,
                    ),
                )
            } else if path.target_mode >= config.modes.len() {
                Err(
                    mode_index_text(
                        "CCD target mode index "@,
                        path.target_mode as int,
                        " is invalid"@,
                    ),
                )
            } else if config.modes[path.target_mode as int].kind != ModeKind::Target {
                Err(
                    mode_index_text(
                        "CCD target mode index "@,
                        path.target_mode as int,
                        " is not a target mode"@,
                    ),
                )
            } else {
                Ok(
                    (
                        ConfigView {
                            paths: config.paths.update(
                                index,
                                PathInfo {
                                    refresh_numerator: refresh_hz,
                                    refresh_denominator: 1,
                                    ..activated(path)
                                },
                            ),
                            modes: config.modes.update(
                                path.source_mode as int,
                                placed(
                                    config.modes[path.source_mode as int],
                                    width,
                                    height,
                                    position,
                                ),
                            ).update(
                                path.target_mode as int,
                                signalled(
                                    config.modes[path.target_mode as int],
                                    width,
                                    height,
                                    refresh_hz,
                                ),
                            ),
                        },
                        position,
                    ),
                )
            }
        },
    }
}

/// Makes a path active at a mode, to the right of all other active ones.
pub fn set_virtual_mode(
    config: DisplayConfig,
    index: usize,
    width: u32,
    height: u32,
    refresh_hz: u32,
) -> (result: Result<(DisplayConfig, Point), String>)
    requires
        index < config.paths@.len(),
        width * height * refresh_hz <= u64::MAX,
    ensures
        match with_mode(config@, index as int, width, height, refresh_hz) {
            Ok(expected) => result matches Ok(found) && found.0@ == expected.0 && found.1
                == expected.1,
            Err(text) => result matches Err(e) && e@ == text,
        },
{
    let mut config: DisplayConfig = config;
    let position: Point = non_overlapping_position(&config, index)?;
    let mut path: PathInfo = config.paths[index];
    if path.flags % 2 == 0 {
        path.flags = path.flags + 1;
    }
    let source_index: usize = source_mode_index(&path)?;
    let target_index: usize = target_mode_index(&path)?;
    if source_index >= config.modes.len() {
        return Err(mode_index_error("CCD source mode index ", source_index, " is invalid"));
    }
    let mut source: ModeInfo = config.modes[source_index];
    if source.kind != ModeKind::Source {
        return Err(
            mode_index_error("CCD source mode index ", source_index, " is not a source mode"),
        );
    }
    source.source = SourceMode { width, height, position };
    if target_index >= config.modes.len() {
        return Err(mode_index_error("CCD target mode index ", target_index, " is invalid"));
    }
    let mut target: ModeInfo = config.modes[target_index];
    if target.kind != ModeKind::Target {
        return Err(
            mode_index_error("CCD target mode index ", target_index, " is not a target mode"),
        );
    }
    assert(0 <= width * height <= 0xffff_ffff * 0xffff_ffff) by (nonlinear_arith)
        requires
            0 <= width <= 0xffff_ffff,
            0 <= height <= 0xffff_ffff,
    ;
    target.signal = SignalInfo {
        active_width: width,
        active_height: height,
        total_width: width,
        total_height: height,
        vsync_numerator: refresh_hz,
        vsync_denominator: 1,
        pixel_rate: width as u64 * height as u64 * refresh_hz as u64,
    };
    path.refresh_numerator = refresh_hz;
    path.refresh_denominator = 1;
    config.modes[source_index] = source;
    config.modes[target_index] = target;
    config.paths[index] = path;
    Ok((config, position))
}

/// What a query of the topology came to.
#[derive(Debug)]
pub enum QueryStep {
    /// The topology is there.
    Done,
    /// It changed meanwhile and is queried again.
    Again,
    /// It cannot be had.
    Failed(String),
}

/// Reads the status that a query ended with, after some that were made again.
pub fn query_step(attempt: u32, status: u32) -> (step: QueryStep)
    requires
        attempt < QUERY_RETRIES,
    ensures
        if status == 0 {
            step is Done
        } else if status != INSUFFICIENT_BUFFER {
            step matches QueryStep::Failed(text) && text@
                == "CCD query failed (QueryDisplayConfig status "@ + decimal(status as nat) + ")"@
        } else if attempt + 1 < QUERY_RETRIES {
            step is Again
        } else {
            step matches QueryStep::Failed(text) && text@
                == "CCD query failed: topology changed while querying"@
        },
{
    if status == 0 {
        return QueryStep::Done;
    }
    if status != INSUFFICIENT_BUFFER {
        let mut text = "CCD query failed (QueryDisplayConfig status ".to_string();
        push_decimal(&mut text, status as u64);
        text.append(")");
        return QueryStep::Failed(text);
    }
    if attempt + 1 < QUERY_RETRIES {
        QueryStep::Again
    } else {
        QueryStep::Failed("CCD query failed: topology changed while querying".to_string())
    }
}

/// The adapter of a display, which a topology is told by.
pub fn required_adapter(target: &DisplayInfo) -> (result: Result<u64, String>)
    ensures
        match target.adapter_luid {
            Some(luid) => result == Ok::<u64, String>(luid),
            None => result matches Err(e) && e@ == "DXGI output "@ + target.name@
                + " has no adapter LUID"@,
        },
{
    match target.adapter_luid {
        Some(luid) => Ok(luid),
        None => {
            let mut text = "DXGI output ".to_string();
            text.append(target.name.as_str());
            text.append(" has no adapter LUID");
            Err(text)
        },
    }
}

/// What a topology is set for.
#[derive(Debug, Clone, Copy, PartialEq, Eq, Structural)]
pub enum ConfigStep {
    Validate,
    Apply,
    PrivacyValidate,
    PrivacyApply,
    RestoreValidate,
    RestoreApply,
}

/// How a refused step is told.
pub open spec fn step_text(step: ConfigStep) -> Seq<char> {
    match step {
        ConfigStep::Validate => "CCD validate rejected (status "@,
        ConfigStep::Apply => "CCD apply failed (status "@,
        ConfigStep::PrivacyValidate => "CCD privacy validate rejected (status "@,
        ConfigStep::PrivacyApply => "CCD privacy apply failed (status "@,
        ConfigStep::RestoreValidate => "CCD restore validate rejected (status "@,
        ConfigStep::RestoreApply => "CCD restore apply failed (status "@,
    }
}

/// Reads the status that setting a topology ended with; zero is success.
pub fn check_status(step: ConfigStep, status: i32) -> (result: Result<(), String>)
    ensures
        if status == 0 {
            result is Ok
        } else {
            result matches Err(e) && e@ == step_text(step) + signed_decimal(status as int)
                + "): SetDisplayConfig"@
        },
{
    if status == 0 {
        return Ok(());
    }
    let mut text = match step {
        ConfigStep::Validate => "CCD validate rejected (status ".to_string(),
        ConfigStep::Apply => "CCD apply failed (status ".to_string(),
        ConfigStep::PrivacyValidate => "CCD privacy validate rejected (status ".to_string(),
        ConfigStep::PrivacyApply => "CCD privacy apply failed (status ".to_string(),
        ConfigStep::RestoreValidate => "CCD restore validate rejected (status ".to_string(),
        ConfigStep::RestoreApply => "CCD restore apply failed (status ".to_string(),
    };
    push_signed_decimal(&mut text, status);
    text.append("): SetDisplayConfig");
    Err(text)
}

/// The refresh rate of a signal in whole cycles per second.
pub open spec fn refresh_of(signal: SignalInfo) -> u32 {
    if signal.vsync_denominator == 0 {
        0
    } else {
        signal.vsync_numerator / signal.vsync_denominator
    }
}

/// The text for a mode that did not take.
pub open spec fn mismatch_text(source: SourceMode, signal: SignalInfo) -> Seq<char> {
    "CCD verification mismatch: source="@ + decimal(source.width as nat) + "x"@ + decimal(
        source.height as nat,
    ) + " at ("@ + signed_decimal(source.position.x as int) + ","@ + signed_decimal(
        source.position.y as int,
    ) + "), target="@ + decimal(signal.active_width as nat) + "x"@ + decimal(
        signal.active_height as nat,
    ) + "@"@ + decimal(refresh_of(signal) as nat) + "Hz"@
}

/// Whether a path is active, alone at its source, and at a mode; else why not.
/// Where it lies is told.
pub open spec fn verified_mode(
    config: ConfigView,
    index: int,
    width: u32,
    height: u32,
    refresh_hz: u32,
) -> Result<Point, Seq<char>> {
    let path = config.paths[index];
    if !is_active(path) {
        Err("CCD virtual path is not active after apply"@)
    } else if shares_source(config.paths, index) {
        Err("CCD virtual source remains cloned after apply"@)
    } else if path.source_mode == MODE_INDEX_INVALID {
        Err("CCD path has no source mode"@)
    } else if path.target_mode == MODE_INDEX_INVALID {
        Err("CCD path has no target mode"@)
    } else if path.source_mode >= config.modes.len() {
        Err(mode_index_text("CCD source mode index "@, path.source_mode as int, " is invalid"@))
    } else if path.target_mode >= config.modes.len() {
        Err(mode_index_text("CCD target mode index "@, path.target_mode as int, " is invalid"@))
    } else {
        let source = config.modes[path.source_mode as int].source;
        let signal = config.modes[path.target_mode as int].signal;
        if source.width != width || source.height != height || signal.active_width != width
            || signal.active_height != height || refresh_of(signal) != refresh_hz {
            Err(mismatch_text(source, signal))
        } else {
            Ok(source.position)
        }
    }
}

fn verify_mode(config: &DisplayConfig, index: usize, width: u32, height: u32, refresh_hz: u32) -> (result:
    Result<Point, String>)
    requires
        index < config.paths@.len(),
    ensures
        match verified_mode(config@, index as int, width, height, refresh_hz) {
            Ok(position) => result == Ok::<Point, String>(position),
            Err(text) => result matches Err(e) && e@ == text,
        },
{
    let path: PathInfo = config.paths[index];
    if path.flags % 2 == 0 {
        return Err("CCD virtual path is not active after apply".to_string());
    }
    if has_duplicate_active_source(&config.paths, index) {
        return Err("CCD virtual source remains cloned after apply".to_string());
    }
    let source_index: usize = source_mode_index(&path)?;
    let target_index: usize = target_mode_index(&path)?;
    if source_index >= config.modes.len() {
        return Err(mode_index_error("CCD source mode index ", source_index, " is invalid"));
    }
    if target_index >= config.modes.len() {
        return Err(mode_index_error("CCD target mode index ", target_index, " is invalid"));
    }
    let source: SourceMode = config.modes[source_index].source;
    let signal: SignalInfo = config.modes[target_index].signal;
    let refresh: u32 = if signal.vsync_denominator == 0 {
        0
    } else {
        signal.vsync_numerator / signal.vsync_denominator
    };
    if source.width != width || source.height != height || signal.active_width != width
        || signal.active_height != height || refresh != refresh_hz {
        let mut text = "CCD verification mismatch: source=".to_string();
        push_decimal(&mut text, source.width as u64);
        text.append("x");
        push_decimal(&mut text, source.height as u64);
        text.append(" at (");
        push_signed_decimal(&mut text, source.position.x);
        text.append(",");
        push_signed_decimal(&mut text, source.position.y);
        text.append("), target=");
        push_decimal(&mut text, signal.active_width as u64);
        text.append("x");
        push_decimal(&mut text, signal.active_height as u64);
        text.append("@");
        push_decimal(&mut text, refresh as u64);
        text.append("Hz");
        return Err(text);
    }
    Ok(source.position)
}

/// Whether the display of a name runs at a mode, on the adapter it was found on
/// before; else why not. Where it lies is told.
pub open spec fn verified(
    config: ConfigView,
    names: Seq<String>,
    expected_name: Seq<char>,
    dxgi_luid: u64,
    expected_luid: u64,
    width: u32,
    height: u32,
    refresh_hz: u32,
) -> Result<Point, Seq<char>> {
    match source_path(config.paths, names, dxgi_luid, expected_name) {
        Err(text) => Err(text),
        Ok(at) => if luid_number(config.paths[at].source_adapter) != expected_luid {
            Err(
                "CCD verification resolved source "@ + expected_name
                    + " on unexpected adapter LUID 0x"@ + upper_hex(
                    luid_number(config.paths[at].source_adapter) as nat,
                    16,
                ) + " (expected 0x"@ + upper_hex(expected_luid as nat, 16) + ")"@,
            )
        } else {
            verified_mode(config, at, width, height, refresh_hz)
        },
    }
}

/// Checks that a display runs at the mode that was set. A place other than the
/// one that was asked for is no failure, so it is given back.
pub fn verify_config(
    config: &DisplayConfig,
    names: &Vec<String>,
    expected_name: &str,
    dxgi_adapter_luid: u64,
    expected_ccd_adapter_luid: u64,
    width: u32,
    height: u32,
    refresh_hz: u32,
) -> (result: Result<Point, String>)
    requires
        names@.len() == config.paths@.len(),
    ensures
        match verified(
            config@,
            names@,
            expected_name@,
            dxgi_adapter_luid,
            expected_ccd_adapter_luid,
            width,
            height,
            refresh_hz,
        ) {
            Ok(position) => result == Ok::<Point, String>(position),
            Err(text) => result matches Err(e) && e@ == text,
        },
{
    let (index, ccd_adapter_luid) = find_source_path(
        &config.paths,
        names,
        dxgi_adapter_luid,
        expected_name,
    )?;
    if ccd_adapter_luid != expected_ccd_adapter_luid {
        let mut text = "CCD verification resolved source ".to_string();
        text.append(expected_name);
        text.append(" on unexpected adapter LUID 0x");
        push_upper_hex(&mut text, ccd_adapter_luid, 16);
        text.append(" (expected 0x");
        push_upper_hex(&mut text, expected_ccd_adapter_luid, 16);
        text.append(")");
        return Err(text);
    }
    verify_mode(config, index, width, height, refresh_hz)
}

/// What was set passes the check, as long as no path of the topology shares the
/// source of the new display.
pub proof fn law_set_mode_verifies(
    config: ConfigView,
    index: int,
    width: u32,
    height: u32,
    refresh_hz: u32,
)
    requires
        0 <= index < config.paths.len(),
        !shares_source(config.paths, index),
        with_mode(config, index, width, height, refresh_hz) is Ok,
    ensures
        ({
            let (set, position) = with_mode(config, index, width, height, refresh_hz)->Ok_0;
            verified_mode(set, index, width, height, refresh_hz) == Ok::<Point, Seq<char>>(position)
        }),
{
    let (set, position) = with_mode(config, index, width, height, refresh_hz)->Ok_0;
    let path = config.paths[index];
    assert(set.paths[index] == (PathInfo {
        refresh_numerator: refresh_hz,
        refresh_denominator: 1,
        ..activated(path)
    }));
    assert(path.source_mode != path.target_mode);
    assert(!shares_source(set.paths, index)) by {
        assert forall|other: int|
            0 <= other < set.paths.len() && other != index && is_active(
                #[trigger] set.paths[other],
            ) implies !same_source(set.paths[other], set.paths[index]) by {
            assert(set.paths[other] == config.paths[other]);
            assert(is_active(config.paths[other]));
        }
    }
}

/// A topology is seen with its own paths and modes.
pub proof fn law_topologies_are_seen(config: DisplayConfig)
    ensures
        config@.paths == config.paths@,
        config@.modes == config.modes@,
        MODE_INDEX_INVALID == 0xffff_ffff,
        INSUFFICIENT_BUFFER == 122,
        QUERY_RETRIES == 4,
{
}

/// The number of an adapter: its low half as it is, its high half in two's
/// complement.
pub proof fn law_adapters_are_numbered(luid: Luid)
    ensures
        luid_number(luid) % 0x1_0000_0000 == luid.low,
        luid.high >= 0 ==> luid_number(luid) / 0x1_0000_0000 == luid.high,
        luid.high < 0 ==> luid_number(luid) / 0x1_0000_0000 == luid.high + 0x1_0000_0000,
        0 <= luid_number(luid) < 0x1_0000_0000_0000_0000,
{
}

/// The lowest flag tells whether a path is active, and turning it on or off leaves
/// everything else as it was.
pub proof fn law_the_lowest_flag_turns_paths_on(path: PathInfo)
    ensures
        is_active(path) <==> path.flags % 2 == 1,
        activated(path).flags % 2 == 1,
        activated(path).flags / 2 == path.flags / 2,
        activated(path) == (PathInfo { flags: activated(path).flags, ..path }),
        deactivated(path).flags % 2 == 0,
        deactivated(path).flags / 2 == path.flags / 2,
        deactivated(path) == (PathInfo { flags: deactivated(path).flags, ..path }),
{
}

/// Paths have a source or a target in common where its adapter and its number are.
pub proof fn law_ends_are_told_by_adapter_and_number(a: PathInfo, b: PathInfo)
    ensures
        same_source(a, b) <==> a.source_adapter.low == b.source_adapter.low && a.source_adapter.high
            == b.source_adapter.high && a.source_id == b.source_id,
        same_target(a, b) <==> a.target_adapter.low == b.target_adapter.low && a.target_adapter.high
            == b.target_adapter.high && a.target_id == b.target_id,
{
}

/// The paths of a name are listed once each, and no others.
pub proof fn law_paths_of_a_name_are_listed(names: Seq<String>, expected: Seq<char>, n: int)
    requires
        0 <= n <= names.len(),
    ensures
        forall|k: int| #[trigger]
            named(names, expected, n).contains(k) <==> 0 <= k < n && names[k]@ == expected,
        named(names, expected, n).no_duplicates(),
    decreases n,
{
    if n > 0 {
        law_paths_of_a_name_are_listed(names, expected, n - 1);
        lemma_named_in_range(names, expected, n - 1);
        let before = named(names, expected, n - 1);
        let after = named(names, expected, n);
        assert forall|k: int| #[trigger] after.contains(k) <==> 0 <= k < n && names[k]@
            == expected by {
            if before.contains(k) {
                let j = choose|j: int| 0 <= j < before.len() && before[j] == k;
                assert(after[j] == k);
            }
            if k == n - 1 && names[k]@ == expected {
                assert(after[before.len() as int] == k);
            }
            if after.contains(k) && k != n - 1 {
                let j = choose|j: int| 0 <= j < after.len() && after[j] == k;
                assert(before[j] == k);
            }
        }
    }
}

proof fn lemma_on_adapter(paths: Seq<PathInfo>, listed: Seq<int>, luid: u64, n: int)
    requires
        0 <= n <= listed.len(),
        listed.no_duplicates(),
    ensures
        forall|k: int| #[trigger]
            on_adapter(paths, listed, luid, n).contains(k) <==> listed.take(n).contains(k)
                && luid_number(paths[k].source_adapter) == luid,
        on_adapter(paths, listed, luid, n).no_duplicates(),
    decreases n,
{
    if n > 0 {
        lemma_on_adapter(paths, listed, luid, n - 1);
        let before = on_adapter(paths, listed, luid, n - 1);
        let after = on_adapter(paths, listed, luid, n);
        let last = listed[n - 1];
        assert(listed.take(n) =~= listed.take(n - 1).push(last));
        if listed.take(n - 1).contains(last) {
            let fewer = listed.take(n - 1);
            let j = choose|j: int| 0 <= j < fewer.len() && fewer[j] == last;
            assert(listed[j] == listed[n - 1]);
        }
        assert forall|k: int| #[trigger] after.contains(k) <==> listed.take(n).contains(k)
            && luid_number(paths[k].source_adapter) == luid by {
            let all = listed.take(n);
            let fewer = listed.take(n - 1);
            if before.contains(k) {
                let j = choose|j: int| 0 <= j < before.len() && before[j] == k;
                assert(after[j] == k);
            }
            if fewer.contains(k) {
                let j = choose|j: int| 0 <= j < fewer.len() && fewer[j] == k;
                assert(all[j] == k);
            }
            if all.contains(k) && k != last {
                let j = choose|j: int| 0 <= j < all.len() && all[j] == k;
                assert(fewer[j] == k);
            }
            assert(all[n - 1] == last);
            if after.contains(k) {
                let j = choose|j: int| 0 <= j < after.len() && after[j] == k;
                if j < before.len() {
                    assert(before[j] == k);
                }
            }
            if k == last && luid_number(paths[k].source_adapter) == luid {
                assert(after[before.len() as int] == k);
            }
        }
        assert(!before.contains(last));
        assert forall|i: int, j: int|
            0 <= i < after.len() && 0 <= j < after.len() && i != j implies after[i] != after[j] by {
            if i < before.len() && j < before.len() {
                assert(before[i] != before[j]);
            } else if i < before.len() {
                assert(before.contains(before[i]));
            } else if j < before.len() {
                assert(before.contains(before[j]));
            }
        }
    }
}

/// A path that is found has the name. Where others have it as well, it is the only
/// one on the adapter.
pub proof fn law_found_paths_have_the_name(
    paths: Seq<PathInfo>,
    names: Seq<String>,
    luid: u64,
    expected: Seq<char>,
    at: int,
    other: int,
)
    requires
        names.len() == paths.len(),
        source_path(paths, names, luid, expected) == Ok::<int, Seq<char>>(at),
        0 <= other < paths.len(),
        other != at,
        names[other]@ == expected,
    ensures
        0 <= at < paths.len(),
        names[at]@ == expected,
        luid_number(paths[at].source_adapter) == luid,
        luid_number(paths[other].source_adapter) != luid,
{
    let listed = named(names, expected, paths.len() as int);
    let there = on_adapter(paths, listed, luid, listed.len() as int);
    law_paths_of_a_name_are_listed(names, expected, paths.len() as int);
    lemma_on_adapter(paths, listed, luid, listed.len() as int);
    assert(listed.take(listed.len() as int) =~= listed);
    assert(listed.contains(other));
    let j = choose|j: int| 0 <= j < listed.len() && listed[j] == other;
    if listed.len() == 1 {
        assert(listed[0] == other);
    } else {
        assert(there[0] == at);
        assert(there.contains(at));
        assert(listed.contains(at));
        if luid_number(paths[other].source_adapter) == luid {
            assert(there.contains(other));
            let i = choose|i: int| 0 <= i < there.len() && there[i] == other;
            assert(there[0] == other);
        }
    }
}

/// A path is found where it alone has the name, or alone has it on the adapter.
pub proof fn law_named_paths_are_found(
    paths: Seq<PathInfo>,
    names: Seq<String>,
    luid: u64,
    expected: Seq<char>,
    at: int,
)
    requires
        names.len() == paths.len(),
        0 <= at < paths.len(),
        names[at]@ == expected,
        (forall|k: int| 0 <= k < names.len() && k != at ==> (#[trigger] names[k])@ != expected) || (
        luid_number(paths[at].source_adapter) == luid && forall|k: int|
            0 <= k < names.len() && k != at && (#[trigger] names[k])@ == expected ==> luid_number(
                paths[k].source_adapter,
            ) != luid),
    ensures
        source_path(paths, names, luid, expected) == Ok::<int, Seq<char>>(at),
{
    let listed = named(names, expected, paths.len() as int);
    let there = on_adapter(paths, listed, luid, listed.len() as int);
    law_paths_of_a_name_are_listed(names, expected, paths.len() as int);
    lemma_on_adapter(paths, listed, luid, listed.len() as int);
    assert(listed.take(listed.len() as int) =~= listed);
    assert(listed.contains(at));
    let j = choose|j: int| 0 <= j < listed.len() && listed[j] == at;
    if listed.len() == 1 {
        assert(listed[0] == at);
    } else {
        let i: int = if j == 0 {
            1
        } else {
            0
        };
        assert(listed.contains(listed[i]));
        assert(listed[i] != at);
        assert(names[listed[i]]@ == expected);
        assert(there.contains(at));
        let t = choose|t: int| 0 <= t < there.len() && there[t] == at;
        if there.len() > 1 {
            let u: int = if t == 0 {
                1
            } else {
                0
            };
            assert(there.contains(there[u]));
            assert(there[u] != at);
            assert(listed.contains(there[u]));
            assert(names[there[u]]@ == expected);
        }
        assert(there[0] == at);
    }
}

/// No path is found where none has the name, or where several have it and none, or
/// more than one, of them is on the adapter.
pub proof fn law_missing_and_ambiguous_paths(
    paths: Seq<PathInfo>,
    names: Seq<String>,
    luid: u64,
    expected: Seq<char>,
)
    requires
        names.len() == paths.len(),
    ensures
        (forall|k: int| 0 <= k < names.len() ==> (#[trigger] names[k])@ != expected) ==> source_path(
            paths,
            names,
            luid,
            expected,
        ) == Err::<int, Seq<char>>("CCD path never appeared for source "@ + expected),
        forall|a: int, b: int|
            0 <= a < b < names.len() && (#[trigger] names[a])@ == expected && (
            #[trigger] names[b])@ == expected && (luid_number(paths[a].source_adapter) == luid) == (
            luid_number(paths[b].source_adapter) == luid) && (luid_number(paths[a].source_adapter)
                == luid || forall|k: int|
                0 <= k < names.len() && (#[trigger] names[k])@ == expected ==> luid_number(
                    paths[k].source_adapter,
                ) != luid) ==> source_path(paths, names, luid, expected) == Err::<int, Seq<char>>(
                "CCD source "@ + expected + " is ambiguous across "@ + decimal(
                    named(names, expected, names.len() as int).len(),
                ) + " paths (DXGI adapter LUID 0x"@ + upper_hex(luid as nat, 16) + ")"@,
            ),
{
    let listed = named(names, expected, paths.len() as int);
    let there = on_adapter(paths, listed, luid, listed.len() as int);
    law_paths_of_a_name_are_listed(names, expected, paths.len() as int);
    lemma_on_adapter(paths, listed, luid, listed.len() as int);
    assert(listed.take(listed.len() as int) =~= listed);
    if forall|k: int| 0 <= k < names.len() ==> (#[trigger] names[k])@ != expected {
        if listed.len() > 0 {
            assert(listed.contains(listed[0]));
            assert(names[listed[0]]@ == expected);
        }
    }
    assert forall|a: int, b: int|
        0 <= a < b < names.len() && (#[trigger] names[a])@ == expected && (#[trigger] names[b])@
            == expected && (luid_number(paths[a].source_adapter) == luid) == (luid_number(
            paths[b].source_adapter,
        ) == luid) && (luid_number(paths[a].source_adapter) == luid || forall|k: int|
            0 <= k < names.len() && (#[trigger] names[k])@ == expected ==> luid_number(
                paths[k].source_adapter,
            ) != luid) implies source_path(paths, names, luid, expected) == Err::<int, Seq<char>>(
        "CCD source "@ + expected + " is ambiguous across "@ + decimal(
            named(names, expected, names.len() as int).len(),
        ) + " paths (DXGI adapter LUID 0x"@ + upper_hex(luid as nat, 16) + ")"@,
    ) by {
        assert(listed.contains(a) && listed.contains(b));
        let i = choose|i: int| 0 <= i < listed.len() && listed[i] == a;
        let j = choose|j: int| 0 <= j < listed.len() && listed[j] == b;
        assert(i != j);
        assert(listed.len() >= 2);
        if there.len() == 1 {
            let only = there[0];
            assert(there.contains(only));
            assert(listed.contains(only));
            assert(names[only]@ == expected);
            if luid_number(paths[a].source_adapter) == luid {
                assert(there.contains(a) && there.contains(b));
                let u = choose|u: int| 0 <= u < there.len() && there[u] == a;
                let v = choose|v: int| 0 <= v < there.len() && there[v] == b;
                assert(there[0] == a && there[0] == b);
            }
        }
    }
}

/// A source is shared where another active path has its adapter and number.
pub proof fn law_shared_sources(paths: Seq<PathInfo>, index: int, other: int)
    requires
        0 <= index < paths.len(),
        0 <= other < paths.len(),
    ensures
        index != other && paths[other].flags % 2 == 1 && paths[other].source_adapter
            == paths[index].source_adapter && paths[other].source_id == paths[index].source_id
            ==> shares_source(paths, index),
        paths.len() == 1 ==> !shares_source(paths, index),
        shares_source(paths, index) ==> exists|k: int|
            0 <= k < paths.len() && k != index && (#[trigger] paths[k]).flags % 2 == 1
                && paths[k].source_adapter == paths[index].source_adapter && paths[k].source_id
                == paths[index].source_id,
{
    if index != other && is_active(paths[other]) && same_source(paths[other], paths[index]) {
        assert(shares_source(paths, index));
    }
}

/// A path is copied with places for its two modes behind those that are there, if
/// both are there and of their kinds.
pub proof fn law_copied_paths(path: PathInfo, available: Seq<ModeInfo>, modes: Seq<ModeInfo>)
    requires
        available.len() <= 0xffff_ffff,
        modes.len() + 1 < 0xffff_ffff,
    ensures
        ({
            let result = copied_path(path, available, modes);
            let source = path.source_mode as int;
            let target = path.target_mode as int;
            &&& result is Ok <==> source < available.len() && target < available.len()
                && available[source].kind == ModeKind::Source && available[target].kind
                == ModeKind::Target
            &&& result matches Ok(copied) ==> copied.source_mode == modes.len()
                && copied.target_mode == modes.len() + 1 && copied == (PathInfo {
                source_mode: copied.source_mode,
                target_mode: copied.target_mode,
                ..path
            })
            &&& source == 0xffff_ffff ==> result == Err::<PathInfo, Seq<char>>(
                "CCD path has no source mode"@,
            )
            &&& source != 0xffff_ffff && target == 0xffff_ffff ==> result == Err::<
                PathInfo,
                Seq<char>,
            >("CCD path has no target mode"@)
            &&& available.len() <= source < 0xffff_ffff && target != 0xffff_ffff ==> result == Err::<
                PathInfo,
                Seq<char>,
            >("CCD candidate source mode index "@ + decimal(source as nat) + " is invalid"@)
            &&& source < available.len() && available.len() <= target < 0xffff_ffff ==> result
                == Err::<PathInfo, Seq<char>>(
                "CCD candidate target mode index "@ + decimal(target as nat) + " is invalid"@,
            )
            &&& source < available.len() && target < available.len() && result is Err ==> result
                == Err::<PathInfo, Seq<char>>("CCD candidate path has invalid source/target modes"@)
        }),
{
}

/// The replacement of a path is the first that leads to its target, is available
/// and has a source of its own.
pub proof fn law_the_first_replacement_is_taken(
    all: Seq<PathInfo>,
    shared: PathInfo,
    paths: Seq<PathInfo>,
    from: int,
    at: int,
)
    requires
        0 <= from <= at < all.len(),
        forall|i: int|
            from <= i < at ==> !((#[trigger] all[i]).target_adapter == shared.target_adapter
                && all[i].target_id == shared.target_id && all[i].target_available && (forall|k: int|
                0 <= k < paths.len() ==> !((#[trigger] paths[k]).source_adapter
                    == all[i].source_adapter && paths[k].source_id == all[i].source_id))),
    ensures
        all[at].target_adapter == shared.target_adapter && all[at].target_id == shared.target_id
            && all[at].target_available && (forall|k: int|
            0 <= k < paths.len() ==> !((#[trigger] paths[k]).source_adapter
                == all[at].source_adapter && paths[k].source_id == all[at].source_id))
            ==> replacement(all, shared, paths, from) == Some(all[at]),
        replacement(all, shared, paths, from) matches Some(path) ==> path.target_adapter
            == shared.target_adapter && path.target_id == shared.target_id && path.target_available
            && forall|k: int|
            0 <= k < paths.len() ==> !((#[trigger] paths[k]).source_adapter == path.source_adapter
                && paths[k].source_id == path.source_id),
    decreases all.len() - from,
{
    lemma_replacement_fits(all, shared, paths, from);
    if from < at {
        assert(!is_replacement(all[from], shared, paths)) by {
            if is_replacement(all[from], shared, paths) {
                assert forall|k: int| 0 <= k < paths.len() implies !((
                #[trigger] paths[k]).source_adapter == all[from].source_adapter
                    && paths[k].source_id == all[from].source_id) by {
                    assert(!same_source(paths[k], all[from]));
                }
            }
        }
        law_the_first_replacement_is_taken(all, shared, paths, from + 1, at);
    }
}

proof fn lemma_replacement_fits(
    all: Seq<PathInfo>,
    shared: PathInfo,
    paths: Seq<PathInfo>,
    from: int,
)
    ensures
        replacement(all, shared, paths, from) matches Some(path) ==> path.target_adapter
            == shared.target_adapter && path.target_id == shared.target_id && path.target_available
            && forall|k: int|
            0 <= k < paths.len() ==> !((#[trigger] paths[k]).source_adapter == path.source_adapter
                && paths[k].source_id == path.source_id),
    decreases all.len() - from,
{
    if from < all.len() {
        if is_replacement(all[from], shared, paths) {
            assert forall|k: int| 0 <= k < paths.len() implies !((
            #[trigger] paths[k]).source_adapter == all[from].source_adapter && paths[k].source_id
                == all[from].source_id) by {
                assert(!same_source(paths[k], all[from]));
            }
        } else {
            lemma_replacement_fits(all, shared, paths, from + 1);
        }
    }
}

/// To extend the desktop is to put the replacement, with its modes at the end, in
/// place of the path, and to leave the other paths and modes where they are.
pub proof fn law_extended_topologies(config: ConfigView, index: int, all: ConfigView)
    requires
        0 <= index < config.paths.len(),
    ensures
        ({
            let result = extended(config, index, all);
            let found = replacement(all.paths, config.paths[index], config.paths, 0);
            &&& found is None ==> result == Err::<ConfigView, Seq<char>>(
                "CCD target "@ + decimal(config.paths[index].target_id as nat)
                    + " has no independent source path for Extend"@,
            )
            &&& found matches Some(path) ==> match copied_path(path, all.modes, config.modes) {
                Err(text) => result == Err::<ConfigView, Seq<char>>(text),
                Ok(copied) => {
                    &&& result matches Ok(extended)
                    &&& extended.paths.len() == config.paths.len()
                    &&& extended.paths[index] == copied
                    &&& forall|i: int|
                        0 <= i < config.paths.len() && i != index ==> #[trigger] extended.paths[i]
                            == config.paths[i]
                    &&& extended.modes.len() == config.modes.len() + 2
                    &&& forall|i: int|
                        0 <= i < config.modes.len() ==> #[trigger] extended.modes[i]
                            == config.modes[i]
                    &&& extended.modes[config.modes.len() as int]
                        == all.modes[path.source_mode as int]
                    &&& extended.modes[config.modes.len() as int + 1] == all.modes[path.target_mode as int]
                },
            }
        }),
{
}

/// The right edge of a desktop rectangle is its left one and its width, with the
/// width as a signed number, brought into range.
pub proof fn law_right_edges(mode: SourceMode)
    ensures
        mode.width <= 0x7fff_ffff && mode.position.x + mode.width <= 0x7fff_ffff ==> right_edge(mode)
            == mode.position.x + mode.width,
        mode.width <= 0x7fff_ffff && mode.position.x + mode.width > 0x7fff_ffff ==> right_edge(mode)
            == 0x7fff_ffff,
        mode.width > 0x7fff_ffff && mode.position.x + mode.width - 0x1_0000_0000 >= -0x8000_0000
            ==> right_edge(mode) == mode.position.x + mode.width - 0x1_0000_0000,
        mode.width > 0x7fff_ffff && mode.position.x + mode.width - 0x1_0000_0000 < -0x8000_0000
            ==> right_edge(mode) == -0x8000_0000,
{
}

/// The free position is no farther than it must be: at zero, or at the right edge
/// of another active path.
pub proof fn law_position_is_the_nearest(config: ConfigView, without: int, edge: int)
    requires
        rightmost(config, without, config.paths.len() as int) == Ok::<int, Seq<char>>(edge),
    ensures
        edge >= 0,
        edge > 0 ==> exists|i: int|
            0 <= i < config.paths.len() && i != without && (#[trigger] config.paths[i]).flags % 2
                == 1 && edge == right_edge(config.modes[config.paths[i].source_mode as int].source),
{
    lemma_edge_is_reached(config, without, config.paths.len() as int);
}

proof fn lemma_edge_is_reached(config: ConfigView, without: int, n: int)
    requires
        rightmost(config, without, n) is Ok,
        0 <= n <= config.paths.len(),
    ensures
        ({
            let edge = rightmost(config, without, n)->Ok_0;
            &&& edge >= 0
            &&& edge > 0 ==> exists|i: int|
                0 <= i < n && i != without && (#[trigger] config.paths[i]).flags % 2 == 1 && edge
                    == right_edge(config.modes[config.paths[i].source_mode as int].source)
        }),
    decreases n,
{
    if n > 0 {
        lemma_edge_is_reached(config, without, n - 1);
        let edge = rightmost(config, without, n)->Ok_0;
        let before = rightmost(config, without, n - 1)->Ok_0;
        if edge == before {
            if edge > 0 {
                let i = choose|i: int|
                    0 <= i < n - 1 && i != without && (#[trigger] config.paths[i]).flags % 2 == 1
                        && edge == right_edge(
                        config.modes[config.paths[i].source_mode as int].source,
                    );
                assert(config.paths[i].flags % 2 == 1);
            }
        } else {
            assert(config.paths[n - 1].flags % 2 == 1);
        }
    }
}

/// There is a position where every other active path has its source mode; else the
/// first that has none is told.
pub proof fn law_position_needs_source_modes(config: ConfigView, without: int, at: int)
    requires
        config.modes.len() <= 0xffff_ffff,
        0 <= at <= config.paths.len(),
        forall|i: int|
            0 <= i < at && i != without && (#[trigger] config.paths[i]).flags % 2 == 1
                ==> config.paths[i].source_mode < config.modes.len(),
    ensures
        at == config.paths.len() ==> rightmost(config, without, at) is Ok,
        at < config.paths.len() && at != without && config.paths[at].flags % 2 == 1
            && config.paths[at].source_mode == 0xffff_ffff ==> rightmost(
            config,
            without,
            config.paths.len() as int,
        ) == Err::<int, Seq<char>>("CCD path has no source mode"@),
        at < config.paths.len() && at != without && config.paths[at].flags % 2 == 1
            && config.modes.len() <= config.paths[at].source_mode < 0xffff_ffff ==> rightmost(
            config,
            without,
            config.paths.len() as int,
        ) == Err::<int, Seq<char>>(
            "CCD source mode index "@ + decimal(config.paths[at].source_mode as nat)
                + " is invalid"@,
        ),
{
    lemma_rightmost_is_there(config, without, at);
    if at < config.paths.len() && rightmost(config, without, at + 1) is Err {
        lemma_rightmost_fails(config, without, at + 1, config.paths.len() as int);
    }
}

proof fn lemma_rightmost_is_there(config: ConfigView, without: int, n: int)
    requires
        config.modes.len() <= 0xffff_ffff,
        0 <= n <= config.paths.len(),
        forall|i: int|
            0 <= i < n && i != without && (#[trigger] config.paths[i]).flags % 2 == 1
                ==> config.paths[i].source_mode < config.modes.len(),
    ensures
        rightmost(config, without, n) is Ok,
    decreases n,
{
    if n > 0 {
        lemma_rightmost_is_there(config, without, n - 1);
        let path = config.paths[n - 1];
    }
}

/// A mode that is set: its path is turned on, its source has the size and the free
/// position, its target the size and the refresh rate, and nothing else changes.
pub proof fn law_modes_are_set(
    config: ConfigView,
    index: int,
    width: u32,
    height: u32,
    refresh_hz: u32,
    other: int,
)
    requires
        0 <= index < config.paths.len(),
        width * height * refresh_hz <= u64::MAX,
        with_mode(config, index, width, height, refresh_hz) is Ok,
    ensures
        ({
            let (set, position) = with_mode(config, index, width, height, refresh_hz)->Ok_0;
            let source = config.paths[index].source_mode as int;
            let target = config.paths[index].target_mode as int;
            &&& rightmost(config, index, config.paths.len() as int) matches Ok(edge) && position
                == (Point { x: edge as i32, y: 0 })
            &&& set.paths.len() == config.paths.len()
            &&& 0 <= other < config.paths.len() && other != index ==> set.paths[other]
                == config.paths[other]
            &&& set.paths[index] == (PathInfo {
                flags: set.paths[index].flags,
                refresh_numerator: refresh_hz,
                refresh_denominator: 1,
                ..config.paths[index]
            })
            &&& set.paths[index].flags % 2 == 1
            &&& set.paths[index].flags / 2 == config.paths[index].flags / 2
            &&& 0 <= source < config.modes.len() && config.modes[source].kind == ModeKind::Source
            &&& 0 <= target < config.modes.len() && config.modes[target].kind == ModeKind::Target
            &&& set.modes.len() == config.modes.len()
            &&& set.modes[source] == (ModeInfo {
                source: SourceMode { width, height, position },
                ..config.modes[source]
            })
            &&& set.modes[target].kind == ModeKind::Target
            &&& set.modes[target].source == config.modes[target].source
            &&& set.modes[target].signal.active_width == width
            &&& set.modes[target].signal.active_height == height
            &&& set.modes[target].signal.total_width == width
            &&& set.modes[target].signal.total_height == height
            &&& set.modes[target].signal.vsync_numerator == refresh_hz
            &&& set.modes[target].signal.vsync_denominator == 1
            &&& set.modes[target].signal.pixel_rate == width * height * refresh_hz
            &&& 0 <= other < config.modes.len() && other != source && other != target
                ==> set.modes[other] == config.modes[other]
        }),
{
    let source = config.paths[index].source_mode as int;
    let target = config.paths[index].target_mode as int;
    assert(source != target);
    assert(0 <= width * height * refresh_hz) by (nonlinear_arith)
        requires
            0 <= width,
            0 <= height,
            0 <= refresh_hz,
    ;
}

/// A mode is set where there is a position and the path has a source mode and a
/// target mode; else what is missing is told.
pub proof fn law_modes_are_refused(
    config: ConfigView,
    index: int,
    width: u32,
    height: u32,
    refresh_hz: u32,
)
    requires
        0 <= index < config.paths.len(),
        config.modes.len() <= 0xffff_ffff,
    ensures
        ({
            let result = with_mode(config, index, width, height, refresh_hz);
            let edge = rightmost(config, index, config.paths.len() as int);
            let source = config.paths[index].source_mode as int;
            let target = config.paths[index].target_mode as int;
            let count = config.modes.len();
            let has_source = source < count && config.modes[source].kind == ModeKind::Source;
            &&& result is Ok <==> edge is Ok && has_source && target < count
                && config.modes[target].kind == ModeKind::Target
            &&& edge matches Err(text) ==> result == Err::<(ConfigView, Point), Seq<char>>(text)
            &&& edge is Ok && source == 0xffff_ffff ==> result == Err::<
                (ConfigView, Point),
                Seq<char>,
            >("CCD path has no source mode"@)
            &&& edge is Ok && source < 0xffff_ffff && target == 0xffff_ffff ==> result == Err::<
                (ConfigView, Point),
                Seq<char>,
            >("CCD path has no target mode"@)
            &&& edge is Ok && count <= source < 0xffff_ffff && target < 0xffff_ffff ==> result
                == Err::<(ConfigView, Point), Seq<char>>(
                "CCD source mode index "@ + decimal(source as nat) + " is invalid"@,
            )
            &&& edge is Ok && source < count && target < 0xffff_ffff && !has_source ==> result
                == Err::<(ConfigView, Point), Seq<char>>(
                "CCD source mode index "@ + decimal(source as nat) + " is not a source mode"@,
            )
            &&& edge is Ok && has_source && count <= target < 0xffff_ffff ==> result == Err::<
                (ConfigView, Point),
                Seq<char>,
            >("CCD target mode index "@ + decimal(target as nat) + " is invalid"@)
            &&& edge is Ok && has_source && target < count && config.modes[target].kind
                != ModeKind::Target ==> result == Err::<(ConfigView, Point), Seq<char>>(
                "CCD target mode index "@ + decimal(target as nat) + " is not a target mode"@,
            )
        }),
{
}

/// The texts of the steps, and the refresh rate of a signal.
pub proof fn law_steps_have_their_texts(signal: SignalInfo)
    ensures
        step_text(ConfigStep::Validate) == "CCD validate rejected (status "@,
        step_text(ConfigStep::Apply) == "CCD apply failed (status "@,
        step_text(ConfigStep::PrivacyValidate) == "CCD privacy validate rejected (status "@,
        step_text(ConfigStep::PrivacyApply) == "CCD privacy apply failed (status "@,
        step_text(ConfigStep::RestoreValidate) == "CCD restore validate rejected (status "@,
        step_text(ConfigStep::RestoreApply) == "CCD restore apply failed (status "@,
        signal.vsync_denominator == 0 ==> refresh_of(signal) == 0,
        signal.vsync_denominator > 0 ==> refresh_of(signal) == signal.vsync_numerator as int
            / signal.vsync_denominator as int,
{
}

/// A mode is verified where its path is active, has a source of its own, and both
/// its modes have the size and the refresh rate.
pub proof fn law_modes_are_verified(
    config: ConfigView,
    index: int,
    width: u32,
    height: u32,
    refresh_hz: u32,
)
    requires
        0 <= index < config.paths.len(),
        config.modes.len() <= 0xffff_ffff,
    ensures
        ({
            let result = verified_mode(config, index, width, height, refresh_hz);
            let path = config.paths[index];
            let at = path.source_mode as int;
            let to = path.target_mode as int;
            let count = config.modes.len();
            let source = config.modes[at].source;
            let signal = config.modes[to].signal;
            let on = path.flags % 2 == 1;
            let own = on && !shares_source(config.paths, index);
            let rate = if signal.vsync_denominator == 0 {
                0
            } else {
                signal.vsync_numerator as int / signal.vsync_denominator as int
            };
            let right = source.width == width && source.height == height && signal.active_width
                == width && signal.active_height == height && rate == refresh_hz;
            &&& result is Ok <==> own && at < count && to < count && right
            &&& result matches Ok(position) ==> position == source.position
            &&& !on ==> result == Err::<Point, Seq<char>>(
                "CCD virtual path is not active after apply"@,
            )
            &&& on && !own ==> result == Err::<Point, Seq<char>>(
                "CCD virtual source remains cloned after apply"@,
            )
            &&& own && at == 0xffff_ffff ==> result == Err::<Point, Seq<char>>(
                "CCD path has no source mode"@,
            )
            &&& own && at < 0xffff_ffff && to == 0xffff_ffff ==> result == Err::<Point, Seq<char>>(
                "CCD path has no target mode"@,
            )
            &&& own && count <= at < 0xffff_ffff && to < 0xffff_ffff ==> result == Err::<
                Point,
                Seq<char>,
            >("CCD source mode index "@ + decimal(at as nat) + " is invalid"@)
            &&& own && at < count && count <= to < 0xffff_ffff ==> result == Err::<Point, Seq<char>>(
                "CCD target mode index "@ + decimal(to as nat) + " is invalid"@,
            )
            &&& own && at < count && to < count && !right ==> result == Err::<Point, Seq<char>>(
                "CCD verification mismatch: source="@ + decimal(source.width as nat) + "x"@
                    + decimal(source.height as nat) + " at ("@ + signed_decimal(
                    source.position.x as int,
                ) + ","@ + signed_decimal(source.position.y as int) + "), target="@ + decimal(
                    signal.active_width as nat,
                ) + "x"@ + decimal(signal.active_height as nat) + "@"@ + decimal(rate as nat)
                    + "Hz"@,
            )
        }),
{
}

/// A topology is verified by the path of its name, on the expected adapter.
pub proof fn law_topologies_are_verified(
    config: ConfigView,
    names: Seq<String>,
    expected_name: Seq<char>,
    dxgi_luid: u64,
    expected_luid: u64,
    width: u32,
    height: u32,
    refresh_hz: u32,
)
    ensures
        ({
            let result = verified(
                config,
                names,
                expected_name,
                dxgi_luid,
                expected_luid,
                width,
                height,
                refresh_hz,
            );
            match source_path(config.paths, names, dxgi_luid, expected_name) {
                Err(text) => result == Err::<Point, Seq<char>>(text),
                Ok(at) => {
                    let luid = luid_number(config.paths[at].source_adapter);
                    &&& luid == expected_luid ==> result == verified_mode(
                        config,
                        at,
                        width,
                        height,
                        refresh_hz,
                    )
                    &&& luid != expected_luid ==> result == Err::<Point, Seq<char>>(
                        "CCD verification resolved source "@ + expected_name
                            + " on unexpected adapter LUID 0x"@ + upper_hex(luid as nat, 16)
                            + " (expected 0x"@ + upper_hex(expected_luid as nat, 16) + ")"@,
                    )
                },
            }
        }),
{
}

} // verus!
