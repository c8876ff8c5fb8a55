use vstd::prelude::*;

verus! {

/// What `str::to_lowercase` makes of a sequence of characters.
pub uninterp spec fn lower_of(s: Seq<char>) -> Seq<char>;

/// `i` is the position of the last `.` in `name`.
pub open spec fn is_last_dot(name: Seq<char>, i: int) -> bool {
    0 <= i < name.len() && name[i] == '.' && forall|j: int| i < j < name.len() ==> name[j] != '.'
}

/// The extension of a file name, as paths define it: what follows the last
/// `.`, unless that dot is the first character (a dotfile) or the name is `..`.
pub open spec fn extension_of(name: Seq<char>) -> Option<Seq<char>> {
    if name == seq!['.', '.'] {
        None
    } else if exists|i: int| 0 < i && #[trigger] is_last_dot(name, i) {
        let i = choose|i: int| 0 < i && #[trigger] is_last_dot(name, i);
        Some(name.skip(i + 1))
    } else {
        None
    }
}

/// The key that stands for files without an extension.
pub open spec fn no_extension_key() -> Seq<char> {
    "[no extension]"@
}

/// The grouping key of a file name: its extension, lowercased, after a dot.
pub open spec fn extension_key(name: Seq<char>) -> Seq<char> {
    match extension_of(name) {
        Some(e) => seq!['.'] + lower_of(e),
        None => no_extension_key(),
    }
}

/// Relies on `str::to_lowercase`: the result depends on the characters alone.
#[verifier::external_body]
fn lowercase(s: &str) -> (r: String)
    ensures
        r@ == lower_of(s@),
{
    s.to_lowercase()
}

/// The extension of `name`, without its dot, if it has one.
pub fn extension_part(name: &str) -> (r: Option<&str>)
    ensures
        match r {
            Some(e) => extension_of(name@) == Some(e@),
            None => extension_of(name@).is_none(),
        },
{
    let n = name.unicode_len();
    if n == 2 && name.get_char(0) == '.' && name.get_char(1) == '.' {
        assert(name@ =~= seq!['.', '.']);
        return None;
    }
    let mut i: usize = n;
    while i > 0 && name.get_char(i - 1) != '.'
        invariant
            n == name@.len(),
            i <= n,
            forall|j: int| i <= j < n ==> name@[j] != '.',
        decreases i,
    {
        i = i - 1;
    }
    if i <= 1 {
        proof {
            if exists|k: int| 0 < k && #[trigger] is_last_dot(name@, k) {
                let k = choose|k: int| 0 < k && #[trigger] is_last_dot(name@, k);
                if i == 1 {
                    assert(is_last_dot(name@, 0));
                }
            }
        }
        None
    } else {
        assert(is_last_dot(name@, i - 1));
        proof {
            let k = choose|k: int| 0 < k && #[trigger] is_last_dot(name@, k);
            assert(k == i - 1);
        }
        Some(name.substring_char(i, n))
    }
}

/// The key made of an already lowercased extension: a dot, then the extension.
pub fn dotted_key(lowered: &str) -> (r: String)
    ensures
        r@ == seq!['.'] + lowered@,
{
    let mut r = String::from_str(".");
    proof {
        reveal_strlit(".");
    }
    r.append(lowered);
    r
}

/// The grouping key of a file name: `.` and its lowercased extension, or
/// `[no extension]` where it has none.
pub fn get_extension(name: &str) -> (r: String)
    ensures
        r@ == extension_key(name@),
{
    match extension_part(name) {
        Some(e) => {
            let lowered = lowercase(e);
            dotted_key(lowered.as_str())
        },
        None => String::from_str("[no extension]"),
    }
}

} // verus!
