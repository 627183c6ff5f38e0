//! Which file a preset name resolves to, and which files it shadows.
use vstd::prelude::*;
use crate::error::ClaudioError;
use crate::text::{strings_view, trim, trim_seq};

verus! {

/// Lines `  - <item>`, each ending in a newline.
pub open spec fn dash_lines(items: Seq<Seq<char>>) -> Seq<char>
    decreases items.len(),
{
    if items.len() == 0 {
        Seq::empty()
    } else {
        dash_lines(items.drop_last()) + "  - "@ + items.last() + "\n"@
    }
}

fn push_dash_lines(out: &mut String, items: &Vec<String>, from: usize)
    requires
        from <= items@.len(),
    ensures
        final(out)@ == old(out)@ + dash_lines(strings_view(items@).skip(from as int)),
{
    let ghost start = out@;
    let ghost v = strings_view(items@).skip(from as int);
    let n = items.len();
    let mut i = from;
    assert(v.take(0) =~= Seq::<Seq<char>>::empty());
    while i < n
        invariant
            from <= i <= n,
            n == items@.len(),
            v == strings_view(items@).skip(from as int),
            out@ == start + dash_lines(v.take(i - from)),
        decreases n - i,
    {
        out.push_str("  - ");
        out.push_str(items[i].as_str());
        out.push_str("\n");
        proof {
            let t = v.take(i + 1 - from);
            assert(t.drop_last() =~= v.take(i - from));
            assert(t.last() == items@[i as int]@);
        }
        i = i + 1;
    }
    assert(v.take(n - from) =~= v);
}

/// What `which` prints for a preset name, given the files found for it in search order
/// and the directories searched: the first file, then the files it shadows; with no file,
/// an error listing the directories.
pub fn which_output(preset_name: &str, matches: &Vec<String>, dirs: &Vec<String>) -> (r: Result<String, ClaudioError>)
    ensures
        matches@.len() == 0 ==> (r matches Err(ClaudioError::Message(m))
            && m@ == trim_seq("Preset '"@ + preset_name@ + "' not found in:\n"@ + dash_lines(strings_view(dirs@)))),
        matches@.len() > 0 ==> (r matches Ok(t) && t@ == matches@[0]@ + "\n"@ + (if matches@.len() > 1 {
            "\nNote: This preset shadows:\n"@ + dash_lines(strings_view(matches@).skip(1))
        } else {
            Seq::empty()
        })),
{
    if matches.len() == 0 {
        let mut m = "Preset '".to_owned();
        m.push_str(preset_name);
        m.push_str("' not found in:\n");
        push_dash_lines(&mut m, dirs, 0);
        assert(strings_view(dirs@).skip(0) =~= strings_view(dirs@));
        return Err(ClaudioError::Message(trim(m.as_str())));
    }
    let mut out = matches[0].clone();
    out.push_str("\n");
    if matches.len() > 1 {
        out.push_str("\nNote: This preset shadows:\n");
        push_dash_lines(&mut out, matches, 1);
    }
    Ok(out)
}

} // verus!
