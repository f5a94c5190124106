//! The page that is served, and how its assets are versioned.

use crate::text::{chars_of, decimal, decimal_text, opt_text};
use vstd::prelude::*;
use vstd::string::StringExecFns;

verus! {

/// The latest of the times that are known, or zero.
pub open spec fn latest(times: Seq<Option<u64>>) -> u64
    decreases times.len(),
{
    if times.len() == 0 {
        0
    } else {
        let before = latest(times.drop_last());
        match times.last() {
            Some(t) => if t > before {
                t
            } else {
                before
            },
            None => before,
        }
    }
}

/// The version of the assets: when the latest of them changed, the present time where that is not
/// known, and 1 where neither is.
pub open spec fn version_text(times: Seq<Option<u64>>, now: Option<u64>) -> Seq<char> {
    if latest(times) != 0 {
        decimal(latest(times) as nat)
    } else {
        match now {
            Some(secs) => decimal(secs as nat),
            None => decimal(1),
        }
    }
}

/// Names the version of the assets, from the times at which they changed and the present time, in
/// seconds since the epoch.
pub fn asset_ver(times: &Vec<Option<u64>>, now: Option<u64>) -> (res: String)
    ensures
        res@ == version_text(times@, now),
{
    let mut max: u64 = 0;
    let mut i: usize = 0;
    while i < times.len()
        invariant
            i <= times@.len(),
            max == latest(times@.take(i as int)),
        decreases times@.len() - i,
    {
        assert(times@.take(i + 1).drop_last() =~= times@.take(i as int));
        if let Some(t) = times[i] {
            if t > max {
                max = t;
            }
        }
        i += 1;
    }
    assert(times@.take(i as int) =~= times@);
    if max != 0 {
        decimal_text(max)
    } else {
        match now {
            Some(secs) => decimal_text(secs),
            None => decimal_text(1),
        }
    }
}

/// The text begins with the given one.
pub open spec fn begins(s: Seq<char>, prefix: Seq<char>) -> bool {
    prefix.len() <= s.len() && s.take(prefix.len() as int) == prefix
}

/// Every occurrence of `from`, read from the left, gives way to `to`.
pub open spec fn replaced(s: Seq<char>, from: Seq<char>, to: Seq<char>) -> Seq<char>
    recommends
        from.len() > 0,
    decreases s.len(),
{
    if s.len() == 0 {
        seq![]
    } else if from.len() > 0 && begins(s, from) {
        to + replaced(s.skip(from.len() as int), from, to)
    } else {
        seq![s.first()] + replaced(s.drop_first(), from, to)
    }
}

fn begins_at(chars: &Vec<char>, at: usize, prefix: &Vec<char>) -> (res: bool)
    requires
        at <= chars@.len(),
    ensures
        res == begins(chars@.skip(at as int), prefix@),
{
    let n: usize = chars.len();
    if prefix.len() > n - at {
        return false;
    }
    let mut k: usize = 0;
    while k < prefix.len()
        invariant
            at + prefix@.len() <= n,
            n == chars@.len(),
            k <= prefix@.len(),
            forall|j: int| 0 <= j < k ==> chars@[at + j] == #[trigger] prefix@[j],
        decreases prefix@.len() - k,
    {
        if chars[at + k] != prefix[k] {
            proof {
                let head = chars@.skip(at as int).take(prefix@.len() as int);
                assert(head[k as int] != prefix@[k as int]);
            }
            return false;
        }
        k += 1;
    }
    assert(chars@.skip(at as int).take(prefix@.len() as int) =~= prefix@);
    true
}

/// Replaces every occurrence of `from`, read from the left.
pub fn replace_all(s: &str, from: &str, to: &str) -> (res: String)
    requires
        from@.len() > 0,
    ensures
        res@ == replaced(s@, from@, to@),
{
    let chars = chars_of(s);
    let pattern = chars_of(from);
    let mut out = String::new();
    let mut i: usize = 0;
    assert(chars@.skip(0) =~= chars@);
    assert(out@ + replaced(chars@, from@, to@) =~= replaced(s@, from@, to@));
    while i < chars.len()
        invariant
            i <= chars@.len(),
            pattern@ == from@,
            from@.len() > 0,
            out@ + replaced(chars@.skip(i as int), from@, to@) == replaced(s@, from@, to@),
        decreases chars@.len() - i,
    {
        let ghost before = out@;
        if begins_at(&chars, i, &pattern) {
            out.append(to);
            proof {
                let rest = chars@.skip(i as int);
                assert(rest.skip(from@.len() as int) =~= chars@.skip(i + from@.len()));
                assert(out@ + replaced(chars@.skip(i + from@.len()), from@, to@) =~= before
                    + replaced(rest, from@, to@));
            }
            i += pattern.len();
        } else {
            out.push(chars[i]);
            proof {
                let rest = chars@.skip(i as int);
                assert(rest.drop_first() =~= chars@.skip(i + 1));
                assert(out@ + replaced(chars@.skip(i + 1), from@, to@) =~= before + replaced(
                    rest,
                    from@,
                    to@,
                ));
            }
            i += 1;
        }
    }
    assert(out@ =~= replaced(s@, from@, to@));
    out
}

/// The page with its style sheet and script marked with the version.
pub open spec fn marked_page(page: Seq<char>, ver: Seq<char>) -> Seq<char> {
    replaced(
        replaced(page, "href=\"/styles.css\""@, "href=\"/styles.css?v="@ + ver + "\""@),
        "src=\"/app.js\""@,
        "src=\"/app.js?v="@ + ver + "\""@,
    )
}

/// The page that is served: the one on disk, or a word on what is missing.
pub fn index_page(page: Option<String>, ver: &str) -> (res: String)
    ensures
        res@ == marked_page(
            match page {
                Some(text) => text@,
                None => "<p>Bones UI missing — run from the project root.</p>"@,
            },
            ver@,
        ),
{
    let page = match page {
        Some(text) => text,
        None => String::from_str("<p>Bones UI missing — run from the project root.</p>"),
    };
    let mut style = String::from_str("href=\"/styles.css?v=");
    style.append(ver);
    style.append("\"");
    let mut script = String::from_str("src=\"/app.js?v=");
    script.append(ver);
    script.append("\"");
    proof {
        reveal_strlit("href=\"/styles.css\"");
        reveal_strlit("src=\"/app.js\"");
    }
    let styled = replace_all(page.as_str(), "href=\"/styles.css\"", style.as_str());
    replace_all(styled.as_str(), "src=\"/app.js\"", script.as_str())
}

// ---------------------------------------------------------------------------
// Configuration
// ---------------------------------------------------------------------------

/// Where the page is looked for: where it is configured, else at the first place that has it,
/// else at the last resort.
pub open spec fn page_place(
    configured: Option<Seq<char>>,
    candidates: Seq<(Seq<char>, bool)>,
    at: int,
) -> Seq<char>
    decreases candidates.len() - at,
{
    match configured {
        Some(dir) => dir,
        None => if at >= candidates.len() {
            "web"@
        } else if candidates[at].1 {
            candidates[at].0
        } else {
            page_place(configured, candidates, at + 1)
        },
    }
}

/// Tells where the page is looked for. Each candidate comes with whether it has the page.
pub fn web_dir(configured: Option<String>, candidates: Vec<(String, bool)>) -> (res: String)
    ensures
        res@ == page_place(
            opt_text(configured),
            candidates@.map_values(|c: (String, bool)| (c.0@, c.1)),
            0,
        ),
{
    match configured {
        Some(dir) => dir,
        None => {
            let ghost places = candidates@.map_values(|c: (String, bool)| (c.0@, c.1));
            let mut i: usize = 0;
            while i < candidates.len()
                invariant
                    i <= candidates@.len(),
                    configured is None,
                    places == candidates@.map_values(|c: (String, bool)| (c.0@, c.1)),
                    page_place(None, places, 0) == page_place(None, places, i as int),
                decreases candidates@.len() - i,
            {
                if candidates[i].1 {
                    return candidates[i].0.clone();
                }
                i += 1;
            }
            String::from_str("web")
        },
    }
}

/// The address to listen on: the configured one, or all interfaces.
pub fn listen_addr(configured: Option<String>) -> (res: String)
    ensures
        res@ == match configured {
            Some(addr) => addr@,
            None => "0.0.0.0:8080"@,
        },
{
    match configured {
        Some(addr) => addr,
        None => String::from_str("0.0.0.0:8080"),
    }
}

/// The shared store to use: none where it is not configured or left blank.
pub fn store_url(configured: Option<String>) -> (res: Option<String>)
    ensures
        match (configured, res) {
            (Some(url), Some(kept)) => url@.len() > 0 && kept@ == url@,
            (Some(url), None) => url@.len() == 0,
            (None, kept) => kept is None,
        },
{
    match configured {
        Some(url) => if chars_of(url.as_str()).len() == 0 {
            None
        } else {
            Some(url)
        },
        None => None,
    }
}

} // verus!
