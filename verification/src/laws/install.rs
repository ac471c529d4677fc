//! Laws of installing and uninstalling: what becomes of the start-up files of the
//! shells, and which shims are made.

use vstd::prelude::*;

use super::words;
use crate::install;
use crate::listing;
use crate::number;
use crate::paths;
use crate::registry;
use crate::registry::ToolName;
use crate::text;

verus! {

/// Whether a line holds this text and nothing but white space around it.
pub open spec fn says(line: Seq<char>, what: Seq<char>) -> bool {
    exists|a: Seq<char>, b: Seq<char>|
        words::is_blank(a) && words::is_blank(b) && line == #[trigger] (a + what + b)
}

/// Whether a line begins or ends no block.
pub open spec fn is_plain(line: Seq<char>) -> bool {
    !says(line, "# >>> farthinder >>>"@) && !says(line, "# <<< farthinder <<<"@)
}

/// Whether these lines are their owner's: none begins or ends a block.
pub open spec fn are_own(lines: Seq<Seq<char>>) -> bool {
    forall|i: int| 0 <= i < lines.len() ==> is_plain(#[trigger] lines[i])
}

/// Whether these lines can stand in a block: none ends it.
pub open spec fn are_inside(lines: Seq<Seq<char>>) -> bool {
    forall|i: int|
        0 <= i < lines.len() ==> !says(#[trigger] lines[i], "# <<< farthinder <<<"@)
}

proof fn lemma_newline()
    ensures
        "\n"@ == seq!['\n'],
{
    reveal_strlit("\n");
    assert("\n"@ =~= seq!['\n']);
}

proof fn lemma_says(line: Seq<char>, what: Seq<char>)
    requires
        what.len() > 0,
        !text::is_space(what[0]),
        !text::is_space(what.last()),
    ensures
        says(line, what) <==> text::trimmed(line) == what,
{
    if says(line, what) {
        let (a, b) = choose|a: Seq<char>, b: Seq<char>|
            words::is_blank(a) && words::is_blank(b) && line == #[trigger] (a + what + b);
        words::law_trimmed(a, what, b);
    }
    if text::trimmed(line) == what {
        let (a, b) = words::law_trimmed_parts(line);
        assert(line == a + what + b);
    }
}

proof fn lemma_markers(line: Seq<char>)
    ensures
        install::opens(line) <==> says(line, "# >>> farthinder >>>"@),
        install::closes(line) <==> says(line, "# <<< farthinder <<<"@),
        "# >>> farthinder >>>"@ != "# <<< farthinder <<<"@,
{
    reveal_strlit("# >>> farthinder >>>");
    reveal_strlit("# <<< farthinder <<<");
    let start = "# >>> farthinder >>>"@;
    let end = "# <<< farthinder <<<"@;
    assert(start.len() == 20 && start[0] == '#' && start[19] == '>');
    assert(end.len() == 20 && end[0] == '#' && end[19] == '<');
    lemma_says(line, start);
    lemma_says(line, end);
}

proof fn lemma_own(lines: Seq<Seq<char>>, rest: Seq<Seq<char>>)
    requires
        are_own(lines),
    ensures
        install::outside(lines + rest, false) == lines + install::outside(rest, false),
    decreases lines.len(),
{
    let all = lines + rest;
    if lines.len() == 0 {
        assert(all =~= rest);
        assert(lines + install::outside(rest, false) =~= install::outside(rest, false));
    } else {
        let more = lines.drop_first();
        assert(forall|i: int| 0 <= i < more.len() ==> #[trigger] more[i] == lines[i + 1]);
        assert(is_plain(lines[0]));
        lemma_markers(lines[0]);
        lemma_own(more, rest);
        assert(all.drop_first() =~= more + rest);
        assert(all[0] == lines[0]);
        assert(install::outside(all, false) =~= lines + install::outside(rest, false));
    }
}

proof fn lemma_inside(lines: Seq<Seq<char>>, rest: Seq<Seq<char>>)
    requires
        are_inside(lines),
    ensures
        install::outside(lines + rest, true) == install::outside(rest, true),
    decreases lines.len(),
{
    let all = lines + rest;
    if lines.len() == 0 {
        assert(all =~= rest);
    } else {
        let more = lines.drop_first();
        assert(forall|i: int| 0 <= i < more.len() ==> #[trigger] more[i] == lines[i + 1]);
        assert(!says(lines[0], "# <<< farthinder <<<"@));
        lemma_markers(lines[0]);
        lemma_inside(more, rest);
        assert(all.drop_first() =~= more + rest);
        assert(all[0] == lines[0]);
    }
}

proof fn lemma_blanks(blanks: Seq<Seq<char>>, lines: Seq<Seq<char>>)
    requires
        forall|i: int| 0 <= i < blanks.len() ==> (#[trigger] blanks[i]).len() == 0,
        lines.len() > 0 ==> lines[0].len() > 0,
    ensures
        install::without_leading_blanks(blanks + lines) == lines,
    decreases blanks.len(),
{
    let all = blanks + lines;
    if blanks.len() == 0 {
        assert(all =~= lines);
    } else {
        let more = blanks.drop_first();
        assert(forall|i: int| 0 <= i < more.len() ==> #[trigger] more[i] == blanks[i + 1]);
        lemma_blanks(more, lines);
        assert(all.drop_first() =~= more + lines);
        assert(all[0] == blanks[0]);
    }
}

/// What is written on installing, whatever the owner of the file has in it, ends
/// with the block: behind the end of a line come the opening marker, the body and
/// the closing marker, each on lines of its own, and nothing more.
pub proof fn law_installing_writes_the_block(content: Seq<char>, body: Seq<char>)
    ensures
        ({
            let written = install::updated(content, install::block_of(body));
            let block = "\n# >>> farthinder >>>\n"@ + body + "\n# <<< farthinder <<<\n"@;
            &&& block.len() <= written.len()
            &&& written.skip(written.len() - block.len()) == block
        }),
{
    reveal_strlit("# >>> farthinder >>>");
    reveal_strlit("# <<< farthinder <<<");
    reveal_strlit("\n# >>> farthinder >>>\n");
    reveal_strlit("\n# <<< farthinder <<<\n");
    lemma_newline();
    let start = "# >>> farthinder >>>"@;
    let end = "# <<< farthinder <<<"@;
    let own = install::stripped(content);
    let whole = install::updated(content, install::block_of(body));
    let block = "\n# >>> farthinder >>>\n"@ + body + "\n# <<< farthinder <<<\n"@;
    assert("\n# >>> farthinder >>>\n"@ =~= seq!['\n'] + start + seq!['\n']);
    assert("\n# <<< farthinder <<<\n"@ =~= seq!['\n'] + end + seq!['\n']);
    assert(whole =~= own + block);
    assert(whole.skip(whole.len() - block.len()) =~= block);
}

/// Installing and uninstalling agree on what is the owner's: before the block
/// stands what uninstalling would leave, and whatever block is put in, it is the
/// last thing in the file, with the end of a line before and behind it.
pub proof fn law_installing_adds_to_what_uninstalling_leaves(content: Seq<char>, block: Seq<char>)
    ensures
        install::updated(content, block) == install::stripped(content) + seq!['\n'] + block
            + seq!['\n'],
{
    lemma_newline();
}

/// Uninstalling takes out a block with its two markers, wherever it stands and
/// whatever stands behind it, and does with the other lines what it would do
/// without the block.
pub proof fn law_uninstalling_takes_blocks_out(
    content: Seq<char>,
    other: Seq<char>,
    before: Seq<Seq<char>>,
    opening: Seq<char>,
    inner: Seq<Seq<char>>,
    closing: Seq<char>,
    behind: Seq<Seq<char>>,
)
    requires
        text::lines_of(content) == before + seq![opening] + inner + seq![closing] + behind,
        text::lines_of(other) == before + behind,
        are_own(before),
        says(opening, "# >>> farthinder >>>"@),
        are_inside(inner),
        says(closing, "# <<< farthinder <<<"@),
    ensures
        install::stripped(content) == install::stripped(other),
{
    let all = text::lines_of(content);
    let tail = seq![opening] + inner + seq![closing] + behind;
    assert(all =~= before + tail);
    lemma_own(before, tail);
    lemma_own(before, behind);
    lemma_markers(opening);
    lemma_markers(closing);
    lemma_both(opening);
    lemma_both(closing);
    let next = inner + (seq![closing] + behind);
    assert(tail.drop_first() =~= next);
    assert(tail[0] == opening);
    lemma_inside(inner, seq![closing] + behind);
    let last = seq![closing] + behind;
    assert(last.drop_first() =~= behind);
    assert(last[0] == closing);
    assert(install::outside(tail, false) == install::outside(behind, false));
}

/// A block that nothing ends reaches to the end of the file, and an end without a
/// block is a line that goes alone.
pub proof fn law_uninstalling_takes_halves_out(
    content: Seq<char>,
    other: Seq<char>,
    before: Seq<Seq<char>>,
    marker: Seq<char>,
    behind: Seq<Seq<char>>,
)
    requires
        text::lines_of(content) == before + seq![marker] + behind,
        are_own(before),
        says(marker, "# >>> farthinder >>>"@) && are_inside(behind) && text::lines_of(other)
            == before || says(marker, "# <<< farthinder <<<"@) && text::lines_of(other) == before
            + behind,
    ensures
        install::stripped(content) == install::stripped(other),
{
    let all = text::lines_of(content);
    let tail = seq![marker] + behind;
    let nothing = Seq::<Seq<char>>::empty();
    assert(all =~= before + tail);
    lemma_own(before, tail);
    lemma_own(before, behind);
    lemma_own(before, nothing);
    assert(before + nothing =~= before);
    lemma_markers(marker);
    lemma_both(marker);
    assert(tail.drop_first() =~= behind);
    assert(tail[0] == marker);
    assert(install::outside(nothing, false) =~= nothing);
    assert(install::outside(nothing, true) =~= nothing);
    if says(marker, "# >>> farthinder >>>"@) && are_inside(behind) {
        lemma_inside(behind, nothing);
        assert(behind + nothing =~= behind);
    }
}

/// Uninstalling leaves a file without a block as it is, but for the empty lines at
/// its start and the end of its last line.
pub proof fn law_uninstalling_leaves_own_lines(
    content: Seq<char>,
    blanks: Seq<Seq<char>>,
    own: Seq<Seq<char>>,
)
    requires
        text::lines_of(content) == blanks + own,
        forall|i: int| 0 <= i < blanks.len() ==> (#[trigger] blanks[i]).len() == 0,
        are_own(own),
        own.len() > 0 ==> own[0].len() > 0,
    ensures
        install::stripped(content) == text::joined(own, "\n"@),
{
    let nothing = Seq::<Seq<char>>::empty();
    let first = blanks + own;
    lemma_blank_is_own(blanks);
    assert forall|i: int| 0 <= i < first.len() implies is_plain(#[trigger] first[i]) by {
        if i < blanks.len() {
            assert(first[i] == blanks[i]);
        } else {
            assert(first[i] == own[i - blanks.len()]);
        }
    }
    lemma_own(first, nothing);
    assert(first + nothing =~= first);
    assert(install::outside(nothing, false) =~= nothing);
    lemma_blanks(blanks, own);
}

proof fn lemma_both(line: Seq<char>)
    ensures
        !(install::opens(line) && install::closes(line)),
{
    lemma_markers(line);
}

proof fn lemma_blank_is_own(blanks: Seq<Seq<char>>)
    requires
        forall|i: int| 0 <= i < blanks.len() ==> (#[trigger] blanks[i]).len() == 0,
    ensures
        are_own(blanks),
{
    reveal_strlit("# >>> farthinder >>>");
    reveal_strlit("# <<< farthinder <<<");
    assert("# >>> farthinder >>>"@.len() == 20);
    assert("# <<< farthinder <<<"@.len() == 20);
    assert forall|i: int| 0 <= i < blanks.len() implies is_plain(#[trigger] blanks[i]) by {
        assert(blanks[i].len() == 0);
    }
}

/// Five start-up files get a block, each its own: it puts the directory of the
/// shims first on the search path of its shell.
pub proof fn law_start_up_files(home: Seq<char>)
    ensures
        install::targets(home) == seq![
            (
                paths::joined_path(home, ".zshenv"@),
                "# >>> farthinder >>>\nexport PATH=\"$HOME/.farthinder/bin:$PATH\"\n# <<< farthinder <<<"@,
            ),
            (
                paths::joined_path(home, ".zshrc"@),
                "# >>> farthinder >>>\npath=(\"$HOME/.farthinder/bin\" $path)\nexport PATH\n# <<< farthinder <<<"@,
            ),
            (
                paths::joined_path(home, ".bash_profile"@),
                "# >>> farthinder >>>\nexport PATH=\"$HOME/.farthinder/bin:$PATH\"\n# <<< farthinder <<<"@,
            ),
            (
                paths::joined_path(home, ".bashrc"@),
                "# >>> farthinder >>>\nexport PATH=\"$HOME/.farthinder/bin:$PATH\"\n# <<< farthinder <<<"@,
            ),
            (
                paths::joined_path(home, ".config/fish/config.fish"@),
                "# >>> farthinder >>>\nfish_add_path --prepend --move \"$HOME/.farthinder/bin\"\n# <<< farthinder <<<"@,
            ),
        ],
{
    reveal_strlit("# >>> farthinder >>>");
    reveal_strlit("# <<< farthinder <<<");
    reveal_strlit("\n");
    reveal_strlit("export PATH=\"$HOME/.farthinder/bin:$PATH\"");
    reveal_strlit("path=(\"$HOME/.farthinder/bin\" $path)\nexport PATH");
    reveal_strlit("fish_add_path --prepend --move \"$HOME/.farthinder/bin\"");
    reveal_strlit(
        "# >>> farthinder >>>\nexport PATH=\"$HOME/.farthinder/bin:$PATH\"\n# <<< farthinder <<<",
    );
    reveal_strlit(
        "# >>> farthinder >>>\npath=(\"$HOME/.farthinder/bin\" $path)\nexport PATH\n# <<< farthinder <<<",
    );
    reveal_strlit(
        "# >>> farthinder >>>\nfish_add_path --prepend --move \"$HOME/.farthinder/bin\"\n# <<< farthinder <<<",
    );
    assert(install::block_of(install::EXPORT_BODY@)
        =~= "# >>> farthinder >>>\nexport PATH=\"$HOME/.farthinder/bin:$PATH\"\n# <<< farthinder <<<"@);
    assert(install::block_of(install::PATH_ARRAY_BODY@)
        =~= "# >>> farthinder >>>\npath=(\"$HOME/.farthinder/bin\" $path)\nexport PATH\n# <<< farthinder <<<"@);
    assert(install::block_of(install::FISH_BODY@)
        =~= "# >>> farthinder >>>\nfish_add_path --prepend --move \"$HOME/.farthinder/bin\"\n# <<< farthinder <<<"@);
}

/// Whether some directory of a search path holds a command.
pub open spec fn is_found(
    path_var: Seq<char>,
    existing: Seq<Seq<char>>,
    command: Seq<char>,
) -> bool {
    exists|i: int|
        0 <= i < text::split_on(path_var, ':').len() && existing.contains(
            paths::joined_path(#[trigger] text::split_on(path_var, ':')[i], command),
        )
}

/// A shim is made for exactly those of the twelve commands that some directory of
/// the search path holds.
pub proof fn law_tools_found(path_var: Seq<char>, existing: Seq<Seq<char>>)
    ensures
        install::tools_on_path(path_var, existing) == seq![
            "bun"@,
            "bunx"@,
            "npm"@,
            "npx"@,
            "pnpm"@,
            "yarn"@,
            "pip"@,
            "pip3"@,
            "uv"@,
            "uvx"@,
            "pipx"@,
            "poetry"@,
        ].filter(|command: Seq<char>| is_found(path_var, existing, command)),
{
    let all = seq![
        "bun"@,
        "bunx"@,
        "npm"@,
        "npx"@,
        "pnpm"@,
        "yarn"@,
        "pip"@,
        "pip3"@,
        "uv"@,
        "uvx"@,
        "pipx"@,
        "poetry"@,
    ];
    let good = |command: Seq<char>| is_found(path_var, existing, command);
    let name = |t: ToolName| registry::command_of(t);
    let on = |t: ToolName| install::on_path(path_var, existing, registry::command_of(t));
    assert(registry::all_tools().map_values(name) =~= all);
    assert forall|t: ToolName| #[trigger] on(t) == good(name(t)) by {
        let command = registry::command_of(t);
        let dirs = text::split_on(path_var, ':');
        let places = install::places(path_var, command);
        assert(places.len() == dirs.len());
        assert forall|i: int| 0 <= i < dirs.len() implies #[trigger] places[i]
            == paths::joined_path(dirs[i], command) by {}
        if is_found(path_var, existing, command) {
            let i = choose|i: int|
                0 <= i < dirs.len() && existing.contains(
                    paths::joined_path(#[trigger] dirs[i], command),
                );
            assert(existing.contains(places[i]));
        }
        if install::on_path(path_var, existing, command) {
            let i = choose|i: int| 0 <= i < places.len() && existing.contains(#[trigger] places[i]);
            assert(places[i] == paths::joined_path(dirs[i], command));
        }
    }
    assert(on =~= (|t: ToolName| good(name(t))));
    listing::lemma_filter_view(registry::all_tools(), name, good);
}

/// Everything is installed under `.farthinder` in the home directory, the shims
/// in `bin` and the data in `data`.
pub proof fn law_directories(home: Seq<char>)
    requires
        home.len() > 0,
        home.last() != '/',
    ensures
        install::base_dir(home) == home + "/.farthinder"@,
        install::shim_directory(home) == home + "/.farthinder/bin"@,
        install::data_directory(home) == home + "/.farthinder/data"@,
{
    reveal_strlit(".farthinder");
    reveal_strlit("bin");
    reveal_strlit("data");
    reveal_strlit("/.farthinder");
    reveal_strlit("/.farthinder/bin");
    reveal_strlit("/.farthinder/data");
    assert(install::base_dir(home) =~= home + "/.farthinder"@);
    assert(install::base_dir(home).last() == 'r');
    assert(install::shim_directory(home) =~= home + "/.farthinder/bin"@);
    assert(install::data_directory(home) =~= home + "/.farthinder/data"@);
}

/// Wherever the home directory is, everything is installed in the same places
/// under it.
pub proof fn law_directories_of_any_home(home: Seq<char>)
    ensures
        install::base_dir(home) == paths::joined_path(home, ".farthinder"@),
        install::shim_directory(home) == paths::joined_path(
            paths::joined_path(home, ".farthinder"@),
            "bin"@,
        ),
        install::data_directory(home) == paths::joined_path(
            paths::joined_path(home, ".farthinder"@),
            "data"@,
        ),
{
}

/// The report of an installation tells how many shims there are, names each of
/// them, and tells where they are and what to do next.
pub proof fn law_report(found: Seq<Seq<char>>, shim_dir: Seq<char>)
    ensures
        install::report(found, shim_dir) == "\nCreated shims for "@ + number::decimal_of(found.len())
            + " tools:\n  "@ + text::joined(found, ", "@) + "\n\nShim directory: "@ + shim_dir
            + "\nRun `exec $SHELL` or open a new terminal to activate.\n"@,
{
}

} // verus!
