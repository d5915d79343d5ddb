//! The library folder layout: `<library_root>/R5R Library/<CHANNEL>/`.

use crate::commands::component_views;
use crate::config::remote::{to_upper, uppercase};
use crate::text::{chars_of, eq_ic, eq_ignore_case};
use vstd::prelude::*;

verus! {

/// The folder that holds one folder per channel.
pub const LIBRARY_DIR_NAME: &'static str = "R5R Library";

/// Whether a path, given by its components, is a channel folder of a
/// library: at least two components, the one before the last being
/// `R5R Library` (ignoring ASCII case).
pub fn looks_like_channel_dir(components: &Vec<String>) -> (r: bool)
    ensures
        r == (components@.len() >= 2 && eq_ic(
            component_views(components@)[components@.len() - 2],
            LIBRARY_DIR_NAME@,
        )),
{
    let n = components.len();
    if n < 2 {
        return false;
    }
    let c = chars_of(components[n - 2].as_str());
    let lib = chars_of(LIBRARY_DIR_NAME);
    eq_ignore_case(&c, &lib)
}

/// The install folder of a channel, as path components: the library
/// root's, then `R5R Library`, then the channel's name upper-cased.
pub fn install_dir(library_root: &Vec<String>, channel_name: &str) -> (r: Vec<String>)
    ensures
        component_views(r@) == component_views(library_root@) + seq![LIBRARY_DIR_NAME@, uppercase(channel_name@)],
{
    let mut out: Vec<String> = Vec::new();
    let mut i: usize = 0;
    while i < library_root.len()
        invariant
            i <= library_root@.len(),
            out@.len() == i,
            forall|j: int| 0 <= j < i ==> (#[trigger] out@[j])@ == library_root@[j]@,
        decreases library_root.len() - i,
    {
        let c = crate::text::string_from_str(library_root[i].as_str());
        out.push(c);
        i = i + 1;
    }
    assert(component_views(out@) =~= component_views(library_root@));
    out.push(crate::text::string_from_str(LIBRARY_DIR_NAME));
    out.push(to_upper(channel_name));
    assert(component_views(out@) =~= component_views(library_root@) + seq![LIBRARY_DIR_NAME@, uppercase(channel_name@)]);
    out
}

/// Every install folder is a channel folder of its library.
pub proof fn law_install_dir_is_channel_dir(root: Seq<Seq<char>>, channel_upper: Seq<char>)
    ensures
        ({
            let c = root + seq![LIBRARY_DIR_NAME@, channel_upper];
            c.len() >= 2 && eq_ic(c[c.len() - 2], LIBRARY_DIR_NAME@)
        }),
{
    let c = root + seq![LIBRARY_DIR_NAME@, channel_upper];
    assert(c[c.len() - 2] == LIBRARY_DIR_NAME@);
}

} // verus!
