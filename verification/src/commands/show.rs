//! Showing a preset: where it comes from, and its resolved form.
use vstd::prelude::*;
use crate::order::string_pairs;
use crate::preset::types::{PresetSource, ResolvedPreset};
use crate::text::{join_strings, join_with, strings_view};

verus! {

/// Where a preset comes from, as shown.
pub open spec fn location_text(source: PresetSource) -> Seq<char> {
    match source {
        PresetSource::Inline => "(inline preset from settings)"@,
        PresetSource::File(p) => p@,
    }
}

/// Where a preset comes from, as shown: its file, or that it is inline.
pub fn location_display(source: &PresetSource) -> (r: String)
    ensures
        r@ == location_text(*source),
{
    match source {
        PresetSource::Inline => "(inline preset from settings)".to_owned(),
        PresetSource::File(p) => p.clone(),
    }
}

/// Lines indented by two spaces, each ending in a newline.
pub open spec fn indented_lines(items: Seq<Seq<char>>) -> Seq<char>
    decreases items.len(),
{
    if items.len() == 0 {
        Seq::empty()
    } else {
        indented_lines(items.drop_last()) + "  "@ + items.last() + "\n"@
    }
}

/// `  NAME=value` lines of variables.
pub open spec fn env_lines(es: Seq<(Seq<char>, Seq<char>)>) -> Seq<char>
    decreases es.len(),
{
    if es.len() == 0 {
        Seq::empty()
    } else {
        env_lines(es.drop_last()) + "  "@ + es.last().0 + "="@ + es.last().1 + "\n"@
    }
}

/// The command line shown for a resolved preset.
pub open spec fn command_line_text(exe: Seq<char>, args: Seq<Seq<char>>, has_settings: bool) -> Seq<char> {
    let joined = join_with(args, " "@);
    let suffix = if joined.len() == 0 {
        Seq::empty()
    } else {
        " "@ + joined
    };
    if has_settings {
        "  "@ + exe + " "@ + suffix + " --settings <temp-file>\n"@
    } else {
        "  "@ + exe + suffix + "\n"@
    }
}

/// The text shown for a resolved preset.
pub open spec fn resolved_text(
    name: Seq<char>,
    location: Seq<char>,
    env: Seq<(Seq<char>, Seq<char>)>,
    settings_lines: Option<Seq<Seq<char>>>,
    prompt: Option<Seq<char>>,
    args: Seq<Seq<char>>,
    exe: Seq<char>,
) -> Seq<char> {
    "Configuration: "@ + name + " (resolved)\n"@ + "Location: "@ + location + "\n\n"@
        + "Resolved Environment Variables:\n"@ + (if env.len() == 0 {
        "  (none)\n"@
    } else {
        env_lines(env)
    }) + (match settings_lines {
        Some(ls) => "\nResolved Settings:\n"@ + indented_lines(ls),
        None => Seq::empty(),
    }) + (match prompt {
        Some(p) => "\nPrompt:\n"@ + "  "@ + p + "\n"@,
        None => Seq::empty(),
    }) + "\nResolved CLI Arguments:\n"@ + (if args.len() == 0 {
        "  (none)\n"@
    } else {
        indented_lines(args)
    }) + "\nCommand that would be executed:\n"@ + command_line_text(exe, args, settings_lines is Some)
}

fn push_indented(out: &mut String, items: &Vec<String>)
    ensures
        final(out)@ == old(out)@ + indented_lines(strings_view(items@)),
{
    let ghost start = out@;
    let ghost v = strings_view(items@);
    let n = items.len();
    for i in 0..n
        invariant
            n == items@.len(),
            v == strings_view(items@),
            out@ == start + indented_lines(v.take(i as int)),
    {
        out.push_str("  ");
        out.push_str(items[i].as_str());
        out.push_str("\n");
        proof {
            let t = v.take(i + 1);
            assert(t.drop_last() =~= v.take(i as int));
            assert(t.last() == items@[i as int]@);
        }
        assert(out@ =~= start + indented_lines(v.take(i + 1)));
    }
    assert(v.take(n as int) =~= v);
}

fn push_env_section(out: &mut String, env: &Vec<(String, String)>)
    ensures
        final(out)@ == old(out)@ + (if env@.len() == 0 {
            "  (none)\n"@
        } else {
            env_lines(string_pairs(env@))
        }),
{
    let ghost es = string_pairs(env@);
    if env.len() == 0 {
        out.push_str("  (none)\n");
        return;
    }
    let ghost start = out@;
    let n = env.len();
    for i in 0..n
        invariant
            n == env@.len(),
            es == string_pairs(env@),
            out@ == start + env_lines(es.take(i as int)),
    {
        out.push_str("  ");
        out.push_str(env[i].0.as_str());
        out.push_str("=");
        out.push_str(env[i].1.as_str());
        out.push_str("\n");
        proof {
            let t = es.take(i + 1);
            assert(t.drop_last() =~= es.take(i as int));
            assert(t.last() == es[i as int]);
        }
        assert(out@ =~= start + env_lines(es.take(i + 1)));
    }
    assert(es.take(n as int) =~= es);
}

fn push_optional_sections(out: &mut String, settings_lines: Option<&Vec<String>>, prompt: &Option<String>)
    ensures
        final(out)@ == old(out)@ + (match settings_lines {
            Some(ls) => "\nResolved Settings:\n"@ + indented_lines(strings_view(ls@)),
            None => Seq::empty(),
        }) + (match crate::text::opt_string_view(*prompt) {
            Some(p) => "\nPrompt:\n"@ + "  "@ + p + "\n"@,
            None => Seq::empty(),
        }),
{
    let ghost start = out@;
    match settings_lines {
        Some(ls) => {
            out.push_str("\nResolved Settings:\n");
            push_indented(out, ls);
        },
        None => {},
    }
    let ghost mid = out@;
    match prompt {
        Some(p) => {
            out.push_str("\nPrompt:\n");
            out.push_str("  ");
            out.push_str(p.as_str());
            out.push_str("\n");
        },
        None => {},
    }
}

fn push_args_and_command(out: &mut String, args: &Vec<String>, claude_executable: &str, has_settings: bool)
    ensures
        final(out)@ == old(out)@ + "\nResolved CLI Arguments:\n"@ + (if args@.len() == 0 {
            "  (none)\n"@
        } else {
            indented_lines(strings_view(args@))
        }) + "\nCommand that would be executed:\n"@ + command_line_text(claude_executable@, strings_view(args@), has_settings),
{
    let ghost start = out@;
    out.push_str("\nResolved CLI Arguments:\n");
    if args.len() == 0 {
        out.push_str("  (none)\n");
    } else {
        push_indented(out, args);
    }
    out.push_str("\nCommand that would be executed:\n");
    let joined = join_strings(args, " ");
    let mut suffix = String::new();
    if !joined.as_str().is_empty() {
        suffix.push_str(" ");
        suffix.push_str(joined.as_str());
    }
    proof {
        reveal_strlit("");
    }
    let ghost before_line = out@;
    out.push_str("  ");
    out.push_str(claude_executable);
    if has_settings {
        out.push_str(" ");
        out.push_str(suffix.as_str());
        out.push_str(" --settings <temp-file>\n");
    } else {
        out.push_str(suffix.as_str());
        out.push_str("\n");
    }
    assert(out@ =~= before_line + command_line_text(claude_executable@, strings_view(args@), has_settings));
}

/// What `preset show --resolved` prints: the name and location, the resolved variables,
/// settings (`settings_lines`, the lines of the settings as pretty JSON), prompt and
/// arguments, and the command that would run.
pub fn show_resolved(
    preset_name: &str,
    location: &str,
    resolved: &ResolvedPreset,
    settings_lines: Option<&Vec<String>>,
    claude_executable: &str,
) -> (r: String)
    ensures
        r@ == resolved_text(
            preset_name@,
            location@,
            string_pairs(resolved.env@),
            match settings_lines {
                Some(ls) => Some(strings_view(ls@)),
                None => None,
            },
            crate::text::opt_string_view(resolved.prompt),
            strings_view(resolved.args@),
            claude_executable@,
        ),
{
    let mut out = String::new();
    out.push_str("Configuration: ");
    out.push_str(preset_name);
    out.push_str(" (resolved)\n");
    out.push_str("Location: ");
    out.push_str(location);
    out.push_str("\n\n");
    out.push_str("Resolved Environment Variables:\n");
    let ghost a = out@;
    push_env_section(&mut out, &resolved.env);
    let ghost b = out@;
    push_optional_sections(&mut out, settings_lines, &resolved.prompt);
    let ghost c = out@;
    push_args_and_command(&mut out, &resolved.args, claude_executable, settings_lines.is_some());
    proof {
        let sl = match settings_lines {
            Some(ls) => Some(strings_view(ls@)),
            None => None::<Seq<Seq<char>>>,
        };
        assert(out@ =~= resolved_text(
            preset_name@,
            location@,
            string_pairs(resolved.env@),
            sl,
            crate::text::opt_string_view(resolved.prompt),
            strings_view(resolved.args@),
            claude_executable@,
        ));
    }
    out
}

/// What `preset show` prints without `--resolved`: the name and location, then the preset
/// as pretty JSON (`preset_json`).
pub fn show_plain(preset_name: &str, location: &str, preset_json: &str) -> (r: String)
    ensures
        r@ == "Configuration: "@ + preset_name@ + "\n"@ + "Location: "@ + location@ + "\n\n"@ + preset_json@ + "\n"@,
{
    let mut out = String::new();
    out.push_str("Configuration: ");
    out.push_str(preset_name);
    out.push_str("\n");
    out.push_str("Location: ");
    out.push_str(location);
    out.push_str("\n\n");
    out.push_str(preset_json);
    out.push_str("\n");
    out
}

} // verus!
