//! The settings page: the list of input devices and the selected one.

use vstd::prelude::*;

use crate::text::{owned, position_of, texts_view};

verus! {

/// What the list of devices begins with.
pub const SYSTEM_DEFAULT: &'static str = "System Default";

/// The rows of the list.
pub open spec fn shown(names: Seq<Seq<char>>) -> Seq<Seq<char>> {
    seq![SYSTEM_DEFAULT@] + names
}

/// The list that is shown for the devices: the system's choice first.
pub fn device_list(names: &Vec<String>) -> (r: Vec<String>)
    ensures
        texts_view(r@) == shown(texts_view(names@)),
{
    let mut r: Vec<String> = Vec::new();
    r.push(owned(SYSTEM_DEFAULT));
    let mut i: usize = 0;
    let ghost all = texts_view(names@);
    assert(texts_view(r@) =~= seq![SYSTEM_DEFAULT@] + all.take(0));
    while i < names.len()
        invariant
            i <= names@.len(),
            all == texts_view(names@),
            texts_view(r@) == seq![SYSTEM_DEFAULT@] + all.take(i as int),
        decreases names@.len() - i,
    {
        let ghost before = r@;
        r.push(names[i].clone());
        assert(texts_view(r@) =~= texts_view(before).push(all[i as int]));
        assert(seq![SYSTEM_DEFAULT@] + all.take(i + 1) =~= (seq![SYSTEM_DEFAULT@] + all.take(
            i as int,
        )).push(all[i as int]));
        i = i + 1;
    }
    assert(all.take(all.len() as int) =~= all);
    r
}

/// `selected` is the row of the saved device: the first of that name, or else the
/// system's choice.
pub open spec fn is_row_of(names: Seq<Seq<char>>, saved: Seq<char>, selected: int) -> bool {
    if names.contains(saved) {
        &&& 1 <= selected <= names.len()
        &&& names[selected - 1] == saved
        &&& forall|k: int| 0 <= k < selected - 1 ==> names[k] != saved
    } else {
        selected == 0
    }
}

/// The row to select for the saved device.
pub fn selected_row(names: &Vec<String>, saved: &str) -> (r: usize)
    requires
        names@.len() < usize::MAX,
    ensures
        is_row_of(texts_view(names@), saved@, r as int),
{
    let ghost all = texts_view(names@);
    match position_of(names, saved) {
        Some(i) => {
            proof {
                assert(all[i as int] == saved@);
                assert forall|k: int| 0 <= k < i implies all[k] != saved@ by {
                    assert(names@[k]@ != saved@);
                }
            }
            i + 1
        },
        None => {
            assert(!all.contains(saved@)) by {
                if all.contains(saved@) {
                    let k = choose|k: int| 0 <= k < all.len() && all[k] == saved@;
                    assert(names@[k]@ == saved@);
                }
            }
            0
        },
    }
}

/// The device to save for a row: none for the system's choice and for a row that is not
/// there.
pub open spec fn device_of(names: Seq<Seq<char>>, row: int) -> Seq<char> {
    if 1 <= row <= names.len() {
        names[row - 1]
    } else {
        Seq::empty()
    }
}

/// The device to save for a row.
pub fn device_at(names: &Vec<String>, row: usize) -> (r: String)
    ensures
        r@ == device_of(texts_view(names@), row as int),
{
    if row >= 1 && row <= names.len() {
        names[row - 1].clone()
    } else {
        let r = String::new();
        assert(r@ =~= Seq::<char>::empty());
        r
    }
}

/// A device that was chosen from the list is selected again the next time, as long as it
/// is there.
pub proof fn chosen_device_is_selected_again(
    names: Seq<Seq<char>>,
    later: Seq<Seq<char>>,
    row: int,
    selected: int,
)
    requires
        1 <= row <= names.len(),
        later.contains(names[row - 1]),
        is_row_of(later, device_of(names, row), selected),
    ensures
        device_of(later, selected) == names[row - 1],
{
}

/// A row of the list shows the device that it stands for; the first one is the system's
/// choice, for which no device is saved.
pub proof fn rows_show_their_devices(names: Seq<Seq<char>>, row: int)
    requires
        0 <= row < shown(names).len(),
    ensures
        shown(names).len() == names.len() + 1,
        row == 0 ==> shown(names)[row] == "System Default"@ && device_of(names, row).len() == 0,
        row > 0 ==> shown(names)[row] == names[row - 1] && device_of(names, row) == shown(
            names,
        )[row],
{
}

} // verus!
