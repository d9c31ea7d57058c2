//! Handing a file to an editor: splitting the configured command and adding
//! the editor's own way of naming a line.

use vstd::prelude::*;
use std::path::{Path, PathBuf};
use crate::text::{
    lemma_lead_count_bounds, lemma_split_ws_push_word, lemma_split_ws_push_ws, split_ws, trim, trim_exec, append_str, chars_eq, chars_of, contains, cviews, occurs_at, decimal, ends_with, ends_with_exec, is_ws, is_ws_exec,
    lowercase, push_char, push_decimal, slice_of, string_of, to_lowercase, views,
};

verus! {

#[verifier::external_type_specification]
#[verifier::external_body]
pub struct ExPath(Path);

#[verifier::external_type_specification]
#[verifier::external_body]
pub struct ExPathBuf(PathBuf);

/// The text after the last `/` of `p` (all of `p` when it has none).
pub open spec fn last_piece(p: Seq<char>) -> Seq<char>
    decreases p.len(),
{
    if p.len() == 0 {
        p
    } else if p.last() == '/' {
        Seq::<char>::empty()
    } else {
        last_piece(p.drop_last()).push(p.last())
    }
}

/// Rewrites a path with the platform's own separator throughout
/// (`Path::components` collected into a `PathBuf`, as text).
///
/// `git rev-parse --show-toplevel` answers with forward slashes even on
/// Windows, so joining a repo-relative path onto it yields something like
/// `C:/repo\src/file.rs`, which Explorer cannot parse.
///
/// Stated, as holds on every platform: a non-empty path keeps at least one
/// component, so its text is not empty; and when the text after the last `/`
/// is a plain name, that name is the last component (or, after a verbatim
/// prefix, ends it), so the result ends with it. Not stated: the separators
/// and the rest of the text, which depend on the platform.
#[verifier::external_body]
pub fn native(path: &str) -> (r: String)
    ensures
        path@.len() > 0 ==> r@.len() > 0,
        plain_name(last_piece(path@)) ==> ends_with(r@, last_piece(path@)),
{
    Path::new(path).components().collect::<PathBuf>().to_string_lossy().into_owned()
}

/// Text with no separator, drive colon or dot-name in it: a path of one
/// ordinary component on every platform.
pub open spec fn plain_name(p: Seq<char>) -> bool {
    &&& p.len() > 0
    &&& !p.contains('/')
    &&& !p.contains('\\')
    &&& !p.contains(':')
    &&& p != "."@
    &&& p != ".."@
}

/// `Path::file_name`: the final component of a path, if there is one.
/// Stated, as holds on every platform: a component is a non-empty piece of
/// the path's text, and a plain name is its own file name. Not stated: which
/// piece it is otherwise, since which characters separate components depends
/// on the platform (after a Windows verbatim prefix not even `/` does).
#[verifier::external_body]
pub(crate) fn file_name_of(program: &str) -> (r: Option<String>)
    ensures
        match r {
            Some(n) => n@.len() > 0 && contains(program@, n@),
            None => true,
        },
        match r {
            Some(n) => plain_name(program@) ==> n@ == program@,
            None => !plain_name(program@),
        },
{
    match Path::new(program).file_name() {
        Some(n) => Some(n.to_string_lossy().into_owned()),
        None => None,
    }
}

/// The name a folder is shown by: its last component, or the whole path
/// when it has none.
pub fn folder_name(path: &str) -> (r: String)
    ensures
        contains(path@, r@),
        path@.len() > 0 ==> r@.len() > 0,
        plain_name(path@) ==> r@ == path@,
{
    proof {
        assert(occurs_at(path@, path@, 0)) by {
            assert(path@.subrange(0, path@.len() as int) =~= path@);
        }
    }
    match file_name_of(path) {
        Some(n) => n,
        None => path.to_string(),
    }
}

/// `b` is what names the program in `program`: a file name taken from it,
/// or the whole text when it has none.
pub open spec fn program_base(program: Seq<char>, b: Seq<char>) -> bool {
    ||| b == program
    ||| (b.len() > 0 && contains(program, b))
}

// ---------------------------------------------------------------------------
// Splitting a command
// ---------------------------------------------------------------------------

/// Where the shell-like split of a command stands after some characters.
pub struct SplitState {
    pub out: Seq<Seq<char>>,
    pub cur: Seq<char>,
    pub quote: Option<char>,
    pub quoted: bool,
}

/// The split before any character.
pub open spec fn split_start() -> SplitState {
    SplitState { out: seq![], cur: seq![], quote: None, quoted: false }
}

/// One character of the split: inside quotes everything but the closing
/// quote is kept; outside, a quote opens, white space ends a word (an empty
/// quoted word counts), and anything else is kept.
pub open spec fn split_step(st: SplitState, c: char) -> SplitState {
    match st.quote {
        Some(q) => if c == q {
            SplitState { quote: None, ..st }
        } else {
            SplitState { cur: st.cur.push(c), ..st }
        },
        None => if c == '\'' || c == '"' {
            SplitState { quote: Some(c), quoted: true, ..st }
        } else if is_ws(c) {
            if st.quoted || st.cur.len() > 0 {
                SplitState { out: st.out.push(st.cur), cur: seq![], quote: None, quoted: false }
            } else {
                st
            }
        } else {
            SplitState { cur: st.cur.push(c), ..st }
        },
    }
}

/// The split after every character of `s`.
pub open spec fn split_fold(s: Seq<char>) -> SplitState
    decreases s.len(),
{
    if s.len() == 0 {
        split_start()
    } else {
        split_step(split_fold(s.drop_last()), s.last())
    }
}

/// The words of a command, split the way a shell would, honouring both
/// quote styles.
pub open spec fn split_command_spec(s: Seq<char>) -> Seq<Seq<char>> {
    let st = split_fold(s);
    if st.quoted || st.cur.len() > 0 {
        st.out.push(st.cur)
    } else {
        st.out
    }
}

/// Splits a configured editor command the way a shell would, honouring both
/// quote styles. `core.editor` on Windows is commonly a single-quoted path
/// followed by flags.
pub fn split_command(command: &str) -> (r: Vec<String>)
    ensures
        views(r@) == split_command_spec(command@),
{
    let cs = chars_of(command);
    let mut out: Vec<String> = Vec::new();
    let mut cur: Vec<char> = Vec::new();
    let mut quote: Option<char> = None;
    let mut quoted = false;
    let mut i: usize = 0;
    assert(views(out@) =~= Seq::<Seq<char>>::empty());
    assert(cs@.subrange(0, 0) =~= Seq::<char>::empty());
    while i < cs.len()
        invariant
            i <= cs@.len(),
            split_fold(cs@.subrange(0, i as int)) == (SplitState {
                out: views(out@),
                cur: cur@,
                quote,
                quoted,
            }),
        decreases cs@.len() - i,
    {
        let c = cs[i];
        proof {
            assert(cs@.subrange(0, i + 1).drop_last() =~= cs@.subrange(0, i as int));
        }
        match quote {
            Some(q) => {
                if c == q {
                    quote = None;
                } else {
                    cur.push(c);
                }
            },
            None => {
                if c == '\'' || c == '"' {
                    quote = Some(c);
                    quoted = true;
                } else if is_ws_exec(c) {
                    if quoted || cur.len() > 0 {
                        let ghost before = out@;
                        let w = string_of(&cur);
                        out.push(w);
                        assert(views(out@) =~= views(before).push(cur@));
                        cur = Vec::new();
                        quoted = false;
                    }
                } else {
                    cur.push(c);
                }
            },
        }
        i += 1;
        proof {
            assert(cur@ =~= split_fold(cs@.subrange(0, i as int)).cur);
            assert(views(out@) =~= split_fold(cs@.subrange(0, i as int)).out);
        }
    }
    proof {
        assert(cs@.subrange(0, i as int) =~= cs@);
    }
    if quoted || cur.len() > 0 {
        let ghost before = out@;
        let w = string_of(&cur);
        out.push(w);
        assert(views(out@) =~= views(before).push(cur@));
    }
    out
}

// ---------------------------------------------------------------------------
// Editors
// ---------------------------------------------------------------------------

/// An editor's name without a Windows program extension.
pub open spec fn strip_program_ext(l: Seq<char>) -> Seq<char> {
    if ends_with(l, ".exe"@) || ends_with(l, ".cmd"@) || ends_with(l, ".bat"@) || ends_with(
        l,
        ".com"@,
    ) {
        l.subrange(0, l.len() - 4)
    } else {
        l
    }
}

/// The key an editor is recognised by: its file name lowercased, without
/// a Windows program extension.
pub open spec fn program_key_spec(base: Seq<char>) -> Seq<char> {
    strip_program_ext(lowercase(base))
}

fn ends_with_lit(v: &Vec<char>, p: &str) -> (r: bool)
    ensures
        r == ends_with(v@, p@),
{
    ends_with_exec(v, &chars_of(p))
}

/// The key of an editor whose program file is named `base`.
pub fn program_key_of(base: &str) -> (r: String)
    ensures
        r@ == program_key_spec(base@),
{
    let lower = chars_of(to_lowercase(base).as_str());
    proof {
        reveal_strlit(".exe");
        reveal_strlit(".cmd");
        reveal_strlit(".bat");
        reveal_strlit(".com");
    }
    if ends_with_lit(&lower, ".exe") || ends_with_lit(&lower, ".cmd") || ends_with_lit(&lower, ".bat")
        || ends_with_lit(&lower, ".com") {
        string_of(&slice_of(&lower, 0, lower.len() - 4))
    } else {
        string_of(&lower)
    }
}

/// The key of the program a command starts with: the key of its file name,
/// or of the whole program text when it has no file name.
pub fn program_key(program: &str) -> (r: String)
    ensures
        exists|b: Seq<char>| program_base(program@, b) && r@ == program_key_spec(b),
        plain_name(program@) ==> r@ == program_key_spec(program@),
{
    match file_name_of(program) {
        Some(n) => program_key_of(n.as_str()),
        None => program_key_of(program),
    }
}

/// `key` names one of `names`.
pub open spec fn key_among(key: Seq<char>, names: Seq<Seq<char>>) -> bool {
    names.contains(key)
}

/// Editors that take `-g file:line`.
pub open spec fn goto_editors() -> Seq<Seq<char>> {
    seq!["code"@, "code-insiders"@, "codium"@, "vscodium"@]
}

/// Editors that take `file:line`.
pub open spec fn colon_editors() -> Seq<Seq<char>> {
    seq!["subl"@, "sublime_text"@]
}

/// Editors that take `+line file`.
pub open spec fn plus_editors() -> Seq<Seq<char>> {
    seq!["vim"@, "nvim"@, "gvim"@, "vi"@, "nano"@, "emacs"@, "kate"@, "gedit"@]
}

/// Editors that take `--line line file`.
pub open spec fn line_switch_editors() -> Seq<Seq<char>> {
    seq![
        "clion"@,
        "clion64"@,
        "idea"@,
        "idea64"@,
        "pycharm"@,
        "rider"@,
        "webstorm"@,
        "rustrover"@,
        "goland"@,
    ]
}

/// What follows the configured command: the file, and the line in the
/// editor's own syntax when it has a known one.
pub open spec fn editor_tail(key: Seq<char>, file: Seq<char>, line: u32) -> Seq<Seq<char>> {
    let l = decimal(line as nat);
    if key_among(key, goto_editors()) {
        seq!["-g"@, file + ":"@ + l]
    } else if key == "notepad++"@ {
        seq!["-n"@ + l, file]
    } else if key_among(key, colon_editors()) {
        seq![file + ":"@ + l]
    } else if key_among(key, plus_editors()) {
        seq!["+"@ + l, file]
    } else if key_among(key, line_switch_editors()) {
        seq!["--line"@, l, file]
    } else {
        seq![file]
    }
}

fn is_key(key: &Vec<char>, name: &str) -> (r: bool)
    ensures
        r == (key@ == name@),
{
    chars_eq(key, &chars_of(name))
}

fn among(key: &Vec<char>, names: &Vec<&str>) -> (r: bool)
    ensures
        r == key_among(key@, names@.map_values(|n: &str| n@)),
{
    let ghost nv = names@.map_values(|n: &str| n@);
    let mut i: usize = 0;
    while i < names.len()
        invariant
            i <= names@.len(),
            nv == names@.map_values(|n: &str| n@),
            forall|j: int| 0 <= j < i ==> nv[j] != key@,
        decreases names@.len() - i,
    {
        if is_key(key, names[i]) {
            assert(nv[i as int] == key@);
            return true;
        }
        i += 1;
    }
    proof {
        if nv.contains(key@) {
            let j = choose|j: int| 0 <= j < nv.len() && nv[j] == key@;
            assert(nv[j] != key@);
        }
    }
    false
}

fn lit_arg(v: &mut Vec<String>, s: &str)
    ensures
        views(final(v)@) == views(old(v)@).push(s@),
{
    let ghost before = v@;
    v.push(s.to_owned());
    assert(views(v@) =~= views(before).push(s@));
}

fn text_arg(v: &mut Vec<String>, s: String)
    ensures
        views(final(v)@) == views(old(v)@).push(s@),
{
    let ghost before = v@;
    let ghost sv = s@;
    v.push(s);
    assert(views(v@) =~= views(before).push(sv));
}

/// The argument list for opening `file` at `line` with the editor whose
/// command split into `argv` and whose key is `key`.
pub fn editor_args_for(argv: Vec<String>, key: &str, file: &str, line: u32) -> (r: Vec<String>)
    ensures
        views(r@) == views(argv@) + editor_tail(key@, file@, line),
{
    let mut v = argv;
    let k = chars_of(key);
    let mut num = String::new();
    push_decimal(&mut num, line as u64);
    let goto: Vec<&str> = vec!["code", "code-insiders", "codium", "vscodium"];
    let colon: Vec<&str> = vec!["subl", "sublime_text"];
    let plus: Vec<&str> = vec!["vim", "nvim", "gvim", "vi", "nano", "emacs", "kate", "gedit"];
    let switch: Vec<&str> = vec![
        "clion",
        "clion64",
        "idea",
        "idea64",
        "pycharm",
        "rider",
        "webstorm",
        "rustrover",
        "goland",
    ];
    proof {
        assert(goto@.map_values(|n: &str| n@) =~= goto_editors());
        assert(colon@.map_values(|n: &str| n@) =~= colon_editors());
        assert(plus@.map_values(|n: &str| n@) =~= plus_editors());
        assert(switch@.map_values(|n: &str| n@) =~= line_switch_editors());
    }
    if among(&k, &goto) {
        lit_arg(&mut v, "-g");
        let mut a = String::new();
        append_str(&mut a, file);
        append_str(&mut a, ":");
        append_str(&mut a, num.as_str());
        text_arg(&mut v, a);
    } else if is_key(&k, "notepad++") {
        let mut a = String::new();
        append_str(&mut a, "-n");
        append_str(&mut a, num.as_str());
        text_arg(&mut v, a);
        lit_arg(&mut v, file);
    } else if among(&k, &colon) {
        let mut a = String::new();
        append_str(&mut a, file);
        append_str(&mut a, ":");
        append_str(&mut a, num.as_str());
        text_arg(&mut v, a);
    } else if among(&k, &plus) {
        let mut a = String::new();
        append_str(&mut a, "+");
        append_str(&mut a, num.as_str());
        text_arg(&mut v, a);
        lit_arg(&mut v, file);
    } else if among(&k, &switch) {
        lit_arg(&mut v, "--line");
        text_arg(&mut v, num);
        lit_arg(&mut v, file);
    } else {
        lit_arg(&mut v, file);
    }
    assert(views(v@) =~= views(argv@) + editor_tail(key@, file@, line));
    v
}

/// What holds of `native(path)` on every platform: it is not empty when
/// `path` is not, and it ends with the name after `path`'s last `/` when
/// that is a plain name.
pub open spec fn native_of(path: Seq<char>, file: Seq<char>) -> bool {
    &&& path.len() > 0 ==> file.len() > 0
    &&& plain_name(last_piece(path)) ==> ends_with(file, last_piece(path))
}

/// The full argument list for opening `path` at `line`, or None when no editor
/// command was configured. Editors disagree about how to be told a line, and an
/// unrecognised one is simply handed the file. The file is `path` in the
/// platform's own spelling (see `native`); `editor_args_for` says exactly what
/// comes out for a given file text.
pub fn editor_argv(command: &str, path: &str, line: u32) -> (r: Option<Vec<String>>)
    ensures
        match r {
            None => split_command_spec(command@).len() == 0,
            Some(v) => {
                let words = split_command_spec(command@);
                &&& words.len() > 0
                &&& exists|b: Seq<char>, file: Seq<char>|
                    program_base(words[0], b) && native_of(path@, file) && views(v@) == words
                        + editor_tail(program_key_spec(b), file, line)
                &&& plain_name(words[0]) ==> exists|file: Seq<char>|
                    native_of(path@, file) && views(v@) == words + editor_tail(
                        program_key_spec(words[0]),
                        file,
                        line,
                    )
            },
        },
{
    let argv = split_command(command);
    if argv.len() == 0 {
        return None;
    }
    let file = native(path);
    let key = program_key(argv[0].as_str());
    let ghost w0 = argv@[0]@;
    proof {
        assert(views(argv@)[0] == w0);
    }
    let ghost b = choose|b: Seq<char>| program_base(w0, b) && key@ == program_key_spec(b);
    let r = editor_args_for(argv, key.as_str(), file.as_str(), line);
    proof {
        assert(program_base(w0, b) && native_of(path@, file@) && views(r@) == split_command_spec(command@) + editor_tail(
            program_key_spec(b),
            file@,
            line,
        ));
    }
    Some(r)
}

/// The first configured editor command that is not blank, in the order
/// they are consulted.
pub open spec fn first_command(c: Seq<Option<String>>) -> Option<Seq<char>>
    decreases c.len(),
{
    if c.len() == 0 {
        None
    } else {
        match c[0] {
            Some(s) => if trim(s@).len() > 0 {
                Some(s@)
            } else {
                first_command(c.drop_first())
            },
            None => first_command(c.drop_first()),
        }
    }
}

/// The editor command to use, most specific first: the `GITGUI_EDITOR`
/// override, the settings file's `editor.txt`, git's `core.editor`, then
/// `$VISUAL` and `$EDITOR`. None means the file goes to the system opener.
pub fn pick_editor(
    override_cmd: Option<String>,
    settings_file: Option<String>,
    core_editor: Option<String>,
    visual: Option<String>,
    editor: Option<String>,
) -> (r: Option<String>)
    ensures
        match r {
            Some(s) => first_command(seq![override_cmd, settings_file, core_editor, visual, editor])
                == Some(s@),
            None => first_command(seq![override_cmd, settings_file, core_editor, visual, editor])
                is None,
        },
{
    let ghost all = seq![override_cmd, settings_file, core_editor, visual, editor];
    let mut v: Vec<Option<String>> = Vec::new();
    v.push(override_cmd);
    v.push(settings_file);
    v.push(core_editor);
    v.push(visual);
    v.push(editor);
    assert(v@ =~= all);
    assert(all.subrange(0, all.len() as int) =~= all);
    let mut i: usize = 0;
    while i < v.len()
        invariant
            v@ == all,
            all == seq![override_cmd, settings_file, core_editor, visual, editor],
            i <= v@.len(),
            first_command(all) == first_command(all.subrange(i as int, all.len() as int)),
        decreases v@.len() - i,
    {
        let ghost rest = all.subrange(i as int, all.len() as int);
        proof {
            assert(rest.drop_first() =~= all.subrange(i + 1, all.len() as int));
            assert(rest[0] == v@[i as int]);
        }
        match &v[i] {
            Some(s) => {
                if trim_exec(&chars_of(s.as_str())).len() > 0 {
                    return Some(s.clone());
                }
            },
            None => {},
        }
        i += 1;
    }
    None
}

/// No quote character occurs in `s`.
pub open spec fn unquoted(s: Seq<char>) -> bool {
    forall|i: int| 0 <= i < s.len() ==> s[i] != '\'' && #[trigger] s[i] != '"'
}

/// Where the split of an unquoted command stands: no quote is open, and the
/// finished words followed by the word under way are its white-space words.
proof fn lemma_unquoted_fold(s: Seq<char>)
    requires
        unquoted(s),
    ensures
        ({
            let st = split_fold(s);
            &&& st.quote is None
            &&& !st.quoted
            &&& st.cur.len() > 0 <==> (s.len() > 0 && !is_ws(s.last()))
            &&& st.cur.len() == 0 ==> st.out == split_ws(s)
            &&& st.cur.len() > 0 ==> split_ws(s) == st.out.push(st.cur)
        }),
    decreases s.len(),
{
    if s.len() == 0 {
        assert(split_ws(s) =~= Seq::<Seq<char>>::empty()) by {
            lemma_lead_count_bounds(s, |x: char| is_ws(x));
        }
    } else {
        let p = s.drop_last();
        let c = s.last();
        assert(unquoted(p)) by {
            assert forall|i: int| 0 <= i < p.len() implies p[i] != '\'' && #[trigger] p[i] != '"' by {
                assert(p[i] == s[i]);
            }
        }
        assert(c == s[s.len() - 1]);
        assert(c != '\'' && c != '"');
        lemma_unquoted_fold(p);
        assert(p.push(c) =~= s);
        let st = split_fold(p);
        if is_ws(c) {
            lemma_split_ws_push_ws(p, c);
        } else {
            lemma_split_ws_push_word(p, c);
            if st.cur.len() == 0 {
                assert(st.cur.push(c) =~= seq![c]);
            } else {
                assert(split_ws(p).drop_last() =~= st.out);
            }
        }
    }
}

/// A command with no quotes in it splits exactly as `str::split_whitespace`
/// would: quoting is the only thing the shell-like split adds.
pub proof fn law_unquoted_command_splits_on_white_space(s: Seq<char>)
    requires
        unquoted(s),
    ensures
        split_command_spec(s) == split_ws(s),
{
    lemma_unquoted_fold(s);
}

} // verus!
