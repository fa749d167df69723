use vstd::prelude::*;

verus! {

/// Serves the dashboard's static files.
#[derive(Clone, Copy)]
pub struct ServePublic;

pub fn serve() -> (r: ServePublic) {
    ServePublic
}

/// The request path without one leading `/`.
pub open spec fn spec_asset_key(path: Seq<char>) -> Seq<char> {
    if path.len() > 0 && path[0] == '/' {
        path.subrange(1, path.len() as int)
    } else {
        path
    }
}

/// The path names a file under `assets/`.
pub open spec fn under_assets(key: Seq<char>) -> bool {
    key.len() >= 7 && key.subrange(0, 7) == "assets/"@
}

impl ServePublic {
    /// The key of the embedded file a request path asks for.
    pub fn asset_key(path: &str) -> (r: &str)
        ensures
            r@ == spec_asset_key(path@),
    {
        let n = path.unicode_len();
        if n > 0 && path.get_char(0) == '/' {
            path.substring_char(1, n)
        } else {
            path
        }
    }

    /// The file to serve when the asked one is missing: the single-page
    /// app's `index.html`, except for a missing asset, which is not found.
    pub fn fallback_key(key: &str) -> (r: Option<String>)
        ensures
            match r {
                Some(k) => !under_assets(key@) && k@ == "index.html"@,
                None => under_assets(key@),
            },
    {
        let assets = "assets/";
        proof {
            reveal_strlit("assets/");
        }
        let n = key.unicode_len();
        let mut is_asset = n >= 7;
        let mut i: usize = 0;
        while i < 7 && is_asset
            invariant
                0 <= i <= 7,
                n == key@.len(),
                assets@ == "assets/"@,
                assets@.len() == 7,
                is_asset ==> n >= 7 && key@.subrange(0, i as int) == assets@.subrange(0, i as int),
                !is_asset ==> !under_assets(key@),
            decreases 7 - i,
        {
            if key.get_char(i) != assets.get_char(i) {
                is_asset = false;
                assert(key@.subrange(0, 7)[i as int] != assets@[i as int]);
            } else {
                assert(key@.subrange(0, i + 1) =~= key@.subrange(0, i as int).push(key@[i as int]));
                assert(assets@.subrange(0, i + 1) =~= assets@.subrange(0, i as int).push(assets@[i as int]));
            }
            i = i + 1;
        }
        if is_asset {
            assert(assets@.subrange(0, 7) =~= assets@);
            None
        } else {
            Some(String::from_str("index.html"))
        }
    }
}

} // verus!
