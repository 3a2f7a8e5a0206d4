use vstd::prelude::*;
use vstd::utf8::{decode_utf8, valid_utf8};

use crate::rsknet_text::{decode_text, split_whitespace, split_whitespace_words};

verus! {

/// `.lua`
pub open spec fn lua_suffix() -> Seq<char> {
    seq!['.', 'l', 'u', 'a']
}

/// The script that a launch message starts: the second word of its data
/// (the first names the service kind) with `.lua` appended. Nothing when
/// the data is not UTF-8 or has fewer than two words.
pub fn launch_service_file(data: &[u8]) -> (r: Option<String>)
    ensures
        match r {
            Some(s) => {
                &&& valid_utf8(data@)
                &&& split_whitespace(decode_utf8(data@)).len() >= 2
                &&& s@ == split_whitespace(decode_utf8(data@))[1] + lua_suffix()
            },
            None => !valid_utf8(data@) || split_whitespace(decode_utf8(data@)).len() < 2,
        },
{
    let text = match decode_text(data) {
        Some(t) => t,
        None => return None,
    };
    let arg = split_whitespace_words(text);
    if arg.len() < 2 {
        return None;
    }
    let mut name = String::from_str(arg[1].as_str());
    name.append(".lua");
    proof {
        reveal_strlit(".lua");
        assert(arg@[1]@ == split_whitespace(text@)[1]);
        assert(name@ =~= split_whitespace(text@)[1] + lua_suffix());
    }
    Some(name)
}

} // verus!
