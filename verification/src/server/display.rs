//! Displays of the host, and the one that is captured.

use vstd::prelude::*;

use crate::types::{DesktopRect, Resolution};

verus! {

/// A display.
#[derive(Debug)]
pub struct DisplayInfo {
    pub id: u32,
    pub name: String,
    pub native_resolution: Resolution,
    pub primary: bool,
    /// The adapter that drives the display, where it is known.
    pub adapter_luid: Option<u64>,
    /// Where the display lies on the virtual desktop.
    pub desktop_rect: DesktopRect,
}

/// A display, with its name as a sequence of characters.
#[verifier::ext_equal]
pub struct DisplayView {
    pub id: u32,
    pub name: Seq<char>,
    pub native_resolution: Resolution,
    pub primary: bool,
    pub adapter_luid: Option<u64>,
    pub desktop_rect: DesktopRect,
}

impl View for DisplayInfo {
    type V = DisplayView;

    open spec fn view(&self) -> DisplayView {
        DisplayView {
            id: self.id,
            name: self.name@,
            native_resolution: self.native_resolution,
            primary: self.primary,
            adapter_luid: self.adapter_luid,
            desktop_rect: self.desktop_rect,
        }
    }
}

/// Whether two descriptions are of one output: same name, same adapter.
pub open spec fn same_output(a: DisplayView, b: DisplayView) -> bool {
    a.name == b.name && a.adapter_luid == b.adapter_luid
}

/// Whether the first display with a property was found, or none has it.
pub open spec fn first_where(
    displays: Seq<DisplayInfo>,
    property: spec_fn(DisplayView) -> bool,
    found: Option<usize>,
) -> bool {
    match found {
        Some(at) => {
            &&& at < displays.len()
            &&& property(displays[at as int]@)
            &&& forall|i: int| 0 <= i < at ==> !property(#[trigger] displays[i]@)
        },
        None => forall|i: int| 0 <= i < displays.len() ==> !property(#[trigger] displays[i]@),
    }
}

/// The first display that is the output of another description.
pub fn find_output(displays: &Vec<DisplayInfo>, target: &DisplayInfo) -> (found: Option<usize>)
    ensures
        first_where(displays@, |d: DisplayView| same_output(d, target@), found),
{
    for at in 0..displays.len()
        invariant
            forall|i: int| 0 <= i < at ==> !same_output(#[trigger] displays@[i]@, target@),
    {
        if displays[at].name == target.name && displays[at].adapter_luid == target.adapter_luid {
            return Some(at);
        }
    }
    None
}

fn find_primary(displays: &Vec<DisplayInfo>) -> (found: Option<usize>)
    ensures
        first_where(displays@, |d: DisplayView| d.primary, found),
{
    for at in 0..displays.len()
        invariant
            forall|i: int| 0 <= i < at ==> !(#[trigger] displays@[i]@).primary,
    {
        if displays[at].primary {
            return Some(at);
        }
    }
    None
}

/// The display to capture: the given output and no other, or where none is given
/// the primary display, or the first one where none is primary.
pub fn select_display(displays: &Vec<DisplayInfo>, target: Option<&DisplayInfo>) -> (selected: Option<
    usize,
>)
    requires
        target is None ==> displays@.len() > 0,
    ensures
        match target {
            Some(target) => first_where(
                displays@,
                |d: DisplayView| same_output(d, target@),
                selected,
            ),
            None => if exists|i: int|
                0 <= i < displays@.len() && (#[trigger] displays@[i]@).primary {
                selected is Some && first_where(displays@, |d: DisplayView| d.primary, selected)
            } else {
                selected == Some(0usize)
            },
        },
{
    match target {
        Some(target) => find_output(displays, target),
        None => match find_primary(displays) {
            Some(at) => {
                assert(displays@[at as int]@.primary);
                Some(at)
            },
            None => Some(0),
        },
    }
}

/// Whether a name is in a list.
pub open spec fn names_contain(names: Seq<String>, name: Seq<char>) -> bool {
    exists|i: int| 0 <= i < names.len() && (#[trigger] names[i])@ == name
}

fn is_known(names: &Vec<String>, name: &String) -> (known: bool)
    ensures
        known == names_contain(names@, name@),
{
    for i in 0..names.len()
        invariant
            forall|j: int| 0 <= j < i ==> (#[trigger] names@[j])@ != name@,
    {
        if names[i] == *name {
            assert(names@[i as int]@ == name@);
            return true;
        }
    }
    false
}

/// The first display whose name was not there before.
pub fn find_new_display(displays: &Vec<DisplayInfo>, before: &Vec<String>) -> (found: Option<usize>)
    ensures
        first_where(displays@, |d: DisplayView| !names_contain(before@, d.name), found),
{
    for at in 0..displays.len()
        invariant
            forall|i: int|
                0 <= i < at ==> names_contain(before@, (#[trigger] displays@[i]@).name),
    {
        if !is_known(before, &displays[at].name) {
            return Some(at);
        }
    }
    None
}

/// The first display that is the given output at the wanted size.
pub fn find_configured_display(
    displays: &Vec<DisplayInfo>,
    target: &DisplayInfo,
    width: u32,
    height: u32,
) -> (found: Option<usize>)
    ensures
        first_where(
            displays@,
            |d: DisplayView|
                same_output(d, target@) && d.native_resolution == (Resolution { width, height }),
            found,
        ),
{
    for at in 0..displays.len()
        invariant
            forall|i: int|
                0 <= i < at ==> !(same_output(#[trigger] displays@[i]@, target@)
                    && displays@[i]@.native_resolution == (Resolution { width, height })),
    {
        if displays[at].name == target.name && displays[at].adapter_luid == target.adapter_luid
            && displays[at].native_resolution.width == width
            && displays[at].native_resolution.height == height {
            return Some(at);
        }
    }
    None
}

/// A display is seen with its own fields.
pub proof fn law_displays_are_seen(display: DisplayInfo)
    ensures
        display@.id == display.id,
        display@.name == display.name@,
        display@.native_resolution == display.native_resolution,
        display@.primary == display.primary,
        display@.adapter_luid == display.adapter_luid,
        display@.desktop_rect == display.desktop_rect,
{
}

/// One output is told by its name and its adapter, and by nothing else.
pub proof fn law_outputs_are_told_by_name_and_adapter(a: DisplayInfo, b: DisplayInfo)
    ensures
        same_output(a@, b@) <==> a.name@ == b.name@ && a.adapter_luid == b.adapter_luid,
{
}

/// Of a display with a property, none before it has the property; and where none
/// is found, none has it.
pub proof fn law_the_first_display_is_found(
    displays: Seq<DisplayInfo>,
    property: spec_fn(DisplayView) -> bool,
    found: Option<usize>,
    i: int,
)
    requires
        first_where(displays, property, found),
        0 <= i < displays.len(),
    ensures
        found matches Some(at) ==> at < displays.len() && property(displays[at as int]@),
        property(displays[i]@) ==> (found matches Some(at) && at <= i),
{
    let display = displays[i]@;
}

/// A name is in a list where one of its texts is that name.
pub proof fn law_names_are_found(names: Seq<String>, i: int, name: Seq<char>)
    requires
        0 <= i < names.len(),
    ensures
        names_contain(names, names[i]@),
        names_contain(names, name) && names.len() == 1 ==> names[0]@ == name,
        !names_contain(names, name) ==> names[i]@ != name,
        names_contain(names, name) ==> exists|k: int|
            0 <= k < names.len() && #[trigger] names[k]@ == name,
{
}

} // verus!
