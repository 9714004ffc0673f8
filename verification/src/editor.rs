//! Handing a place in the review to an editor: the command that opens it, and
//! the script that lists every hunk.

use crate::paths::{file_name, name_of};
use crate::text::{
    decimal, number, option_text, replace, replaced, same, split_words, texts, trim, trimmed, words_of,
};
use vstd::prelude::*;

verus! {

/// Whether an optional text holds more than white space.
pub open spec fn filled(s: Option<Seq<char>>) -> bool {
    s is Some && trimmed(s->0).len() > 0
}

/// The words of the first of the two variables that is filled, or `vi`.
pub open spec fn editor_words(visual: Option<Seq<char>>, editor: Option<Seq<char>>) -> Seq<Seq<char>> {
    if filled(visual) {
        words_of(visual->0)
    } else if filled(editor) {
        words_of(editor->0)
    } else {
        words_of("vi"@)
    }
}

/// The editor's command line: `$VISUAL`, then `$EDITOR`, else `vi`.
pub fn resolve_editor(visual: Option<String>, editor: Option<String>) -> (r: Vec<String>)
    ensures
        texts(r@) == editor_words(option_text(visual), option_text(editor)),
{
    if let Some(v) = &visual {
        if !trim(v).as_str().is_empty() {
            return split_command(v);
        }
    }
    if let Some(e) = &editor {
        if !trim(e).as_str().is_empty() {
            return split_command(e);
        }
    }
    split_command("vi")
}

/// The words of a command line.
pub fn split_command(s: &str) -> (r: Vec<String>)
    ensures
        texts(r@) == words_of(s@),
{
    split_words(s)
}

/// Whether an editor takes the line as `+LINE` before the file.
pub open spec fn takes_plus_line(name: Seq<char>) -> bool {
    name == "vim"@ || name == "nvim"@ || name == "vi"@ || name == "nano"@ || name == "emacs"@ || name
        == "kak"@
}

/// `path:line`.
pub open spec fn at_line(path: Seq<char>, line: int) -> Seq<char> {
    path + ":"@ + decimal(line)
}

/// The arguments that place an editor at a line; an editor that is not known
/// gets the file alone.
pub open spec fn location_args(name: Seq<char>, path: Seq<char>, line: int) -> Seq<Seq<char>> {
    if takes_plus_line(name) {
        seq!["+"@ + decimal(line), path]
    } else if name == "hx"@ {
        seq![at_line(path, line)]
    } else if name == "code"@ || name == "codium"@ {
        seq!["-g"@, at_line(path, line)]
    } else {
        seq![path]
    }
}

fn at(path: &str, line: usize) -> (r: String)
    ensures
        r@ == at_line(path@, line as int),
{
    path.to_owned().concat(":").concat(&number(line))
}

pub fn editor_args(basename: &str, path: &str, line: usize) -> (r: Vec<String>)
    ensures
        texts(r@) == location_args(basename@, path@, line as int),
{
    let mut out: Vec<String> = Vec::new();
    if same(basename, "vim") || same(basename, "nvim") || same(basename, "vi") || same(
        basename,
        "nano",
    ) || same(basename, "emacs") || same(basename, "kak") {
        out.push("+".to_owned().concat(&number(line)));
        out.push(path.to_owned());
    } else if same(basename, "hx") {
        out.push(at(path, line));
    } else if same(basename, "code") || same(basename, "codium") {
        out.push("-g".to_owned());
        out.push(at(path, line));
    } else {
        out.push(path.to_owned());
    }
    assert(texts(out@) == location_args(basename@, path@, line as int));
    out
}

/// The name by which a program is known: its path's last component, or all of
/// it where the path has none.
pub open spec fn program_name(program: Seq<char>) -> Seq<char> {
    match name_of(program) {
        Some(n) => n,
        None => program,
    }
}

fn basename(program: &str) -> (r: String)
    ensures
        r@ == program_name(program@),
{
    match file_name(program) {
        Some(n) => n,
        None => program.to_owned(),
    }
}

/// The program and arguments that open `path` at `line`: the editor's own
/// arguments come first. None for an empty command line.
pub fn build_command(spec: &[String], path: &str, line: usize) -> (r: Option<(String, Vec<String>)>)
    ensures
        match r {
            None => spec@.len() == 0,
            Some((program, args)) => spec@.len() > 0 && program@ == spec@[0]@ && texts(args@)
                == texts(spec@).skip(1) + location_args(program_name(spec@[0]@), path@, line as int),
        },
{
    if spec.len() == 0 {
        return None;
    }
    let mut args = rest_of(spec);
    let mut place = editor_args(&basename(&spec[0]), path, line);
    let ghost a = texts(args@);
    let ghost b = texts(place@);
    args.append(&mut place);
    assert(texts(args@) == a + b);
    Some((spec[0].clone(), args))
}

fn rest_of(spec: &[String]) -> (r: Vec<String>)
    requires
        spec@.len() > 0,
    ensures
        texts(r@) == texts(spec@).skip(1),
{
    let mut r: Vec<String> = Vec::new();
    for i in 1..spec.len()
        invariant
            texts(r@) == texts(spec@).subrange(1, i as int),
    {
        let ghost before = texts(r@);
        r.push(spec[i].clone());
        assert(texts(r@) == before.push(spec@[i as int]@));
        assert(texts(spec@).subrange(1, i + 1) == texts(spec@).subrange(1, i as int).push(
            texts(spec@)[i as int],
        ));
    }
    assert(texts(spec@).subrange(1, spec@.len() as int) == texts(spec@).skip(1));
    r
}

/// What came of running a program.
pub enum Launch {
    /// it ran and reported success
    Done,
    /// it ran and ended otherwise: its status in words
    Exited(String),
    /// it could not be started: why
    Failed(String),
}

/// What the reader is told after the editor returns.
pub open spec fn edit_report(
    launch: Launch,
    program: Seq<char>,
    path: Seq<char>,
    line: int,
    approximate: bool,
) -> Seq<char> {
    let note = if approximate {
        " (approximate — this file has changed since the reviewed revision)"@
    } else {
        Seq::<char>::empty()
    };
    match launch {
        Launch::Done => "opened "@ + path + ":"@ + decimal(line) + note,
        Launch::Exited(status) => program + " exited with "@ + status@ + note,
        Launch::Failed(why) => "failed to launch '"@ + program + "': "@ + why@,
    }
}

pub fn edit_message(
    launch: &Launch,
    program: &str,
    path: &str,
    line: usize,
    approximate: bool,
) -> (r: String)
    ensures
        r@ == edit_report(*launch, program@, path@, line as int, approximate),
{
    let note = if approximate {
        " (approximate — this file has changed since the reviewed revision)".to_owned()
    } else {
        String::new()
    };
    match launch {
        Launch::Done => "opened ".to_owned().concat(path).concat(":").concat(&number(line)).concat(
            &note,
        ),
        Launch::Exited(status) => program.to_owned().concat(" exited with ").concat(status).concat(
            &note,
        ),
        Launch::Failed(why) => "failed to launch '".to_owned().concat(program).concat("': ").concat(
            why,
        ),
    }
}

/// What the reader is told after the quickfix list was handed over.
pub open spec fn quickfix_report(launch: Launch, program: Seq<char>, script: Seq<char>) -> Seq<char> {
    match launch {
        Launch::Done => "opened "@ + script + " in "@ + program,
        Launch::Exited(status) => program + " exited with "@ + status@,
        Launch::Failed(why) => "failed to launch '"@ + program + "': "@ + why@,
    }
}

pub fn quickfix_message(launch: &Launch, program: &str, script: &str) -> (r: String)
    ensures
        r@ == quickfix_report(*launch, program@, script@),
{
    match launch {
        Launch::Done => "opened ".to_owned().concat(script).concat(" in ").concat(program),
        Launch::Exited(status) => program.to_owned().concat(" exited with ").concat(status),
        Launch::Failed(why) => "failed to launch '".to_owned().concat(program).concat("': ").concat(
            why,
        ),
    }
}

/// One entry of the quickfix list.
pub struct QfHunk {
    pub filename: String,
    pub lnum: usize,
    /// the sign in the list: `W` or `I`, or none
    pub kind: Option<char>,
    /// the label of the part of the change that the hunk belongs to
    pub cluster: Option<String>,
    pub text: String,
}

/// The sign of a hunk: a warning first, then that it was reviewed.
pub fn qf_kind(warn: bool, reviewed: bool) -> (r: Option<char>)
    ensures
        r == (if warn {
            Some('W')
        } else if reviewed {
            Some('I')
        } else {
            None
        }),
{
    if warn {
        Some('W')
    } else if reviewed {
        Some('I')
    } else {
        None
    }
}

/// A text inside a single-quoted vim string: quotes doubled, line ends made
/// spaces.
pub open spec fn quoted(s: Seq<char>) -> Seq<char> {
    replaced(replaced(replaced(s, '\'', "''"@), '\n', " "@), '\r', " "@)
}

pub fn vim_single_quote(s: &str) -> (r: String)
    ensures
        r@ == quoted(s@),
{
    replace(&replace(&replace(s, '\'', "''"), '\n', " "), '\r', " ")
}

proof fn lemma_replaced_len(s: Seq<char>, from: char, to: Seq<char>)
    ensures
        forall|i: int|
            0 <= i < replaced(s, from, to).len() ==> replaced(s, from, to)[i] != from || to.contains(from),
        forall|c: char|
            c != from && !to.contains(c) && !s.contains(c) ==> !(#[trigger] replaced(s, from, to).contains(c)),
    decreases s.len(),
{
    if s.len() > 0 {
        lemma_replaced_len(s.drop_last(), from, to);
        let before = replaced(s.drop_last(), from, to);
        let all = replaced(s, from, to);
        assert forall|i: int| 0 <= i < all.len() implies all[i] != from || to.contains(from) by {
            if i < before.len() {
                assert(all[i] == before[i]);
            } else if s.last() == from {
                assert(all[i] == to[i - before.len()]);
            }
        }
        assert forall|c: char|
            c != from && !to.contains(c) && !s.contains(c) implies !(#[trigger] all.contains(c)) by {
            assert(!s.drop_last().contains(c)) by {
                if s.drop_last().contains(c) {
                    let w = choose|w: int| 0 <= w < s.drop_last().len() && s.drop_last()[w] == c;
                    assert(s[w] == c);
                }
            }
            if all.contains(c) {
                let w = choose|w: int| 0 <= w < all.len() && all[w] == c;
                if w < before.len() {
                    assert(before[w] == c);
                    assert(before.contains(c));
                } else if s.last() == from {
                    assert(to[w - before.len()] == c);
                } else {
                    assert(s[s.len() - 1] == c);
                }
            }
        }
    }
}

/// No line end survives quoting, so a quoted text never splits the statement
/// that it stands in.
pub proof fn law_quoting_leaves_no_line_end(s: Seq<char>)
    ensures
        !quoted(s).contains('\n'),
        !quoted(s).contains('\r'),
{
    let a = replaced(s, '\'', "''"@);
    let b = replaced(a, '\n', " "@);
    reveal_strlit(" ");
    assert(" "@ =~= seq![' ']);
    lemma_replaced_len(a, '\n', " "@);
    lemma_replaced_len(b, '\r', " "@);
    assert(!b.contains('\n'));
    assert(!quoted(s).contains('\r'));
}

/// Whether the quotes from `i` up to `j` are a run of them with nothing but other
/// characters beside it.
pub open spec fn quote_run(s: Seq<char>, i: int, j: int) -> bool {
    &&& 0 <= i < j <= s.len()
    &&& forall|k: int| i <= k < j ==> s[k] == '\''
    &&& i == 0 || s[i - 1] != '\''
    &&& j == s.len() || s[j] != '\''
}

/// The quotes of a text that was quoted come in pairs: there are twice as many,
/// and each run of them is even.
pub proof fn law_quoting_doubles_every_quote(s: Seq<char>)
    ensures
        quotes(quoted(s)) == 2 * quotes(s),
        forall|i: int, j: int| #[trigger] quote_run(quoted(s), i, j) ==> (j - i) % 2 == 0,
{
    let a = replaced(s, '\'', "''"@);
    let b = replaced(a, '\n', " "@);
    reveal_strlit("''");
    reveal_strlit(" ");
    assert("''"@ =~= seq!['\'', '\'']);
    assert(" "@ =~= seq![' ']);
    lemma_quotes_doubled(s);
    lemma_quotes_kept(a, '\n');
    lemma_quotes_kept(b, '\r');
    lemma_runs_doubled(s);
    lemma_places_kept(a, '\n');
    lemma_places_kept(b, '\r');
    let q = quoted(s);
    assert forall|k: int| 0 <= k < q.len() implies (q[k] == '\'' <==> #[trigger] a[k] == '\'') by {
        assert(q[k] == '\'' <==> b[k] == '\'');
    }
    assert forall|i: int, j: int| #[trigger] quote_run(q, i, j) implies (j - i) % 2 == 0 by {
        assert(quote_run(a, i, j)) by {
            assert forall|k: int| i <= k < j implies a[k] == '\'' by {
                assert(q[k] == '\'');
            }
            if i > 0 {
                assert(q[i - 1] != '\'' && a[i - 1] != '\'');
            }
            if j < q.len() {
                assert(q[j] != '\'' && a[j] != '\'');
            }
        }
    }
}

proof fn lemma_runs_doubled(s: Seq<char>)
    requires
        "''"@ == seq!['\'', '\''],
    ensures
        forall|i: int, j: int| #[trigger] quote_run(replaced(s, '\'', "''"@), i, j) ==> (j - i) % 2 == 0,
    decreases s.len(),
{
    if s.len() > 0 {
        lemma_runs_doubled(s.drop_last());
        let r = replaced(s.drop_last(), '\'', "''"@);
        let t = replaced(s, '\'', "''"@);
        let n = r.len() as int;
        assert(forall|k: int| 0 <= k < n ==> t[k] == r[k]);
        assert forall|i: int, j: int| #[trigger] quote_run(t, i, j) implies (j - i) % 2 == 0 by {
            if s.last() == '\'' {
                assert(t.len() == n + 2 && t[n] == '\'' && t[n + 1] == '\'');
                if j < n {
                    assert(quote_run(r, i, j));
                } else {
                    assert(j == n + 2);
                    if i < n {
                        assert(quote_run(r, i, n)) by {
                            assert forall|k: int| i <= k < n implies r[k] == '\'' by {
                                assert(t[k] == '\'');
                            }
                        }
                    }
                }
            } else {
                assert(t.len() == n + 1 && t[n] != '\'');
                if j == n + 1 {
                    assert(t[n] == '\'');
                }
                assert(quote_run(r, i, j));
            }
        }
    }
}

/// Putting a blank for a character that is no quote leaves the quotes in place.
proof fn lemma_places_kept(s: Seq<char>, from: char)
    requires
        from != '\'',
        " "@ == seq![' '],
    ensures
        replaced(s, from, " "@).len() == s.len(),
        forall|k: int| 0 <= k < s.len() ==> (#[trigger] replaced(s, from, " "@)[k] == '\'' <==> s[k] == '\''),
    decreases s.len(),
{
    if s.len() > 0 {
        lemma_places_kept(s.drop_last(), from);
        let r = replaced(s.drop_last(), from, " "@);
        let t = replaced(s, from, " "@);
        assert forall|k: int| 0 <= k < s.len() implies (#[trigger] t[k] == '\'' <==> s[k] == '\'') by {
            if k < s.len() - 1 {
                assert(t[k] == r[k]);
            }
        }
    }
}

/// How many quotes a text holds.
pub open spec fn quotes(s: Seq<char>) -> int
    decreases s.len(),
{
    if s.len() == 0 {
        0
    } else {
        quotes(s.drop_last()) + if s.last() == '\'' {
            1int
        } else {
            0
        }
    }
}

proof fn lemma_quotes_push2(s: Seq<char>)
    ensures
        quotes(s + seq!['\'', '\'']) == quotes(s) + 2,
{
    let t = s + seq!['\'', '\''];
    assert(t.drop_last() == s.push('\''));
    assert(s.push('\'').drop_last() == s);
    assert(quotes(s.push('\'')) == quotes(s) + 1);
}

proof fn lemma_quotes_doubled(s: Seq<char>)
    requires
        "''"@ == seq!['\'', '\''],
    ensures
        quotes(replaced(s, '\'', "''"@)) == 2 * quotes(s),
    decreases s.len(),
{
    if s.len() > 0 {
        lemma_quotes_doubled(s.drop_last());
        let before = replaced(s.drop_last(), '\'', "''"@);
        if s.last() == '\'' {
            lemma_quotes_push2(before);
        } else {
            assert(before.push(s.last()).drop_last() == before);
        }
    }
}

proof fn lemma_quotes_kept(s: Seq<char>, from: char)
    requires
        from != '\'',
        " "@ == seq![' '],
    ensures
        quotes(replaced(s, from, " "@)) == quotes(s),
    decreases s.len(),
{
    if s.len() > 0 {
        lemma_quotes_kept(s.drop_last(), from);
        let before = replaced(s.drop_last(), from, " "@);
        if s.last() == from {
            assert(before + seq![' '] == before.push(' '));
            assert(before.push(' ').drop_last() == before);
        } else {
            assert(before.push(s.last()).drop_last() == before);
        }
    }
}

/// The texts of `s`, each once, in the order of their first appearance.
pub open spec fn distinct(s: Seq<Seq<char>>) -> Seq<Seq<char>>
    decreases s.len(),
{
    if s.len() == 0 {
        s
    } else if s.drop_last().contains(s.last()) {
        distinct(s.drop_last())
    } else {
        distinct(s.drop_last()).push(s.last())
    }
}

/// Nothing is lost and nothing is added by naming each text once.
pub proof fn lemma_distinct_contains(s: Seq<Seq<char>>)
    ensures
        forall|x: Seq<char>| #[trigger] distinct(s).contains(x) <==> s.contains(x),
    decreases s.len(),
{
    if s.len() > 0 {
        lemma_distinct_contains(s.drop_last());
        let d = distinct(s.drop_last());
        assert forall|x: Seq<char>| #[trigger] distinct(s).contains(x) <==> s.contains(x) by {
            if s.contains(x) {
                let w = choose|w: int| 0 <= w < s.len() && s[w] == x;
                if w < s.len() - 1 {
                    assert(s.drop_last()[w] == x);
                    assert(d.contains(x));
                    let v = choose|v: int| 0 <= v < d.len() && d[v] == x;
                    assert(distinct(s)[v] == x);
                } else if s.drop_last().contains(x) {
                    assert(d.contains(x));
                } else {
                    assert(distinct(s)[d.len() as int] == x);
                }
            }
            if distinct(s).contains(x) {
                let w = choose|w: int| 0 <= w < distinct(s).len() && distinct(s)[w] == x;
                if w < d.len() {
                    assert(d[w] == x);
                    assert(d.contains(x));
                    assert(s.drop_last().contains(x));
                    let v = choose|v: int| 0 <= v < s.len() - 1 && s.drop_last()[v] == x;
                    assert(s[v] == x);
                } else {
                    assert(s[s.len() - 1] == x);
                }
            }
        }
    }
}

/// Whether a list of strings holds a text.
pub fn holds(v: &[String], x: &str) -> (r: bool)
    ensures
        r == texts(v@).contains(x@),
{
    for i in 0..v.len()
        invariant
            forall|k: int| 0 <= k < i ==> (#[trigger] texts(v@)[k]) != x@,
    {
        if same(&v[i], x) {
            assert(texts(v@)[i as int] == x@);
            return true;
        }
    }
    false
}

/// Each text once, in the order of first appearance.
pub fn distinct_of(v: &[String]) -> (r: Vec<String>)
    ensures
        texts(r@) == distinct(texts(v@)),
{
    let mut out: Vec<String> = Vec::new();
    for i in 0..v.len()
        invariant
            texts(out@) == distinct(texts(v@).take(i as int)),
    {
        proof {
            let t = texts(v@).take(i + 1);
            assert(t.drop_last() == texts(v@).take(i as int));
            lemma_distinct_contains(t.drop_last());
        }
        if !holds(&out, &v[i]) {
            let ghost before = texts(out@);
            out.push(v[i].clone());
            assert(texts(out@) == before.push(v@[i as int]@));
        }
    }
    assert(texts(v@).take(v@.len() as int) == texts(v@));
    out
}

/// The plural ending for `n` things.
pub open spec fn plural_of(n: int) -> Seq<char> {
    if n == 1 {
        ""@
    } else {
        "s"@
    }
}

pub fn plural(n: usize) -> (r: &'static str)
    ensures
        r@ == plural_of(n as int),
{
    if n == 1 {
        ""
    } else {
        "s"
    }
}

/// The cluster labels of the hunks that have one.
pub open spec fn clusters_of(hunks: Seq<QfHunk>) -> Seq<Seq<char>>
    decreases hunks.len(),
{
    if hunks.len() == 0 {
        Seq::empty()
    } else {
        match hunks.last().cluster {
            Some(c) => clusters_of(hunks.drop_last()).push(c@),
            None => clusters_of(hunks.drop_last()),
        }
    }
}

/// How many clusters a list names; a list that names none counts as one.
pub open spec fn cluster_count(hunks: Seq<QfHunk>) -> int {
    let n = distinct(clusters_of(hunks)).len() as int;
    if n < 1 {
        1
    } else {
        n
    }
}

/// The list's title.
pub open spec fn script_title(rev: Seq<char>, hunks: Seq<QfHunk>) -> Seq<char> {
    let n = hunks.len() as int;
    let c = cluster_count(hunks);
    "ordo: "@ + rev + " — "@ + decimal(n) + " hunk"@ + plural_of(n) + ", "@ + decimal(c)
        + " cluster"@ + plural_of(c)
}

/// The line that lists one hunk.
pub open spec fn script_item(h: QfHunk) -> Seq<char> {
    let sign = match h.kind {
        Some(c) => seq![c],
        None => Seq::<char>::empty(),
    };
    let text = match h.cluster {
        Some(c) => "["@ + c@ + "] "@ + h.text@,
        None => h.text@,
    };
    "  \\   {'filename': '"@ + quoted(h.filename@) + "', 'lnum': "@ + decimal(h.lnum as int)
        + ", 'col': 1, 'type': '"@ + sign + "', 'text': '"@ + quoted(text) + "'},\n"@
}

pub open spec fn script_items(hunks: Seq<QfHunk>) -> Seq<char>
    decreases hunks.len(),
{
    if hunks.len() == 0 {
        Seq::empty()
    } else {
        script_items(hunks.drop_last()) + script_item(hunks.last())
    }
}

/// The script: one call that pushes a new list, its items in the given order.
pub open spec fn script_of(rev: Seq<char>, strategy: Seq<char>, hunks: Seq<QfHunk>) -> Seq<char> {
    "call setqflist([], ' ', {\n  \\ 'nr': '$',\n  \\ 'title': '"@ + quoted(script_title(rev, hunks))
        + "',\n  \\ 'context': {'rev': '"@ + quoted(rev) + "', 'strategy': '"@ + quoted(strategy)
        + "'},\n  \\ 'items': [\n"@ + script_items(hunks) + "  \\ ]})\n"@
}

fn item_line(h: &QfHunk) -> (r: String)
    ensures
        r@ == script_item(*h),
{
    let mut sign = String::new();
    if let Some(c) = h.kind {
        sign.push(c);
        assert(sign@ == seq![c]);
    }
    let text = match &h.cluster {
        Some(c) => "[".to_owned().concat(c).concat("] ").concat(&h.text),
        None => h.text.clone(),
    };
    "  \\   {'filename': '".to_owned().concat(&vim_single_quote(&h.filename)).concat(
        "', 'lnum': ",
    ).concat(&number(h.lnum)).concat(", 'col': 1, 'type': '").concat(&sign).concat(
        "', 'text': '",
    ).concat(&vim_single_quote(&text)).concat("'},\n")
}

fn cluster_labels(hunks: &[QfHunk]) -> (r: Vec<String>)
    ensures
        texts(r@) == clusters_of(hunks@),
{
    let mut out: Vec<String> = Vec::new();
    for i in 0..hunks.len()
        invariant
            texts(out@) == clusters_of(hunks@.take(i as int)),
    {
        assert(hunks@.take(i + 1).drop_last() == hunks@.take(i as int));
        if let Some(c) = &hunks[i].cluster {
            let ghost before = texts(out@);
            out.push(c.clone());
            assert(texts(out@) == before.push(c@));
        }
    }
    assert(hunks@.take(hunks@.len() as int) == hunks@);
    out
}

/// The script that fills vim's quickfix list.
pub fn quickfix_script(rev: &str, strategy: &str, hunks: &[QfHunk]) -> (r: String)
    ensures
        r@ == script_of(rev@, strategy@, hunks@),
{
    let clusters = distinct_of(&cluster_labels(hunks));
    assert(texts(clusters@).len() == clusters@.len());
    let n_clusters: usize = if clusters.len() < 1 {
        1
    } else {
        clusters.len()
    };
    let title = "ordo: ".to_owned().concat(rev).concat(" — ").concat(&number(hunks.len())).concat(
        " hunk",
    ).concat(plural(hunks.len())).concat(", ").concat(&number(n_clusters)).concat(
        " cluster",
    ).concat(plural(n_clusters));
    let mut items = String::new();
    for i in 0..hunks.len()
        invariant
            items@ == script_items(hunks@.take(i as int)),
    {
        assert(hunks@.take(i + 1).drop_last() == hunks@.take(i as int));
        items.append(&item_line(&hunks[i]));
    }
    assert(hunks@.take(hunks@.len() as int) == hunks@);
    "call setqflist([], ' ', {\n  \\ 'nr': '$',\n  \\ 'title': '".to_owned().concat(
        &vim_single_quote(&title),
    ).concat("',\n  \\ 'context': {'rev': '").concat(&vim_single_quote(rev)).concat(
        "', 'strategy': '",
    ).concat(&vim_single_quote(strategy)).concat("'},\n  \\ 'items': [\n").concat(&items).concat(
        "  \\ ]})\n",
    )
}

/// Whether a program is vim or one of its kin.
pub open spec fn vim_kin(name: Seq<char>) -> bool {
    name == "vim"@ || name == "nvim"@ || name == "vi"@ || name == "gvim"@ || name == "mvim"@
}

pub fn is_vim_family(spec: &[String]) -> (r: bool)
    ensures
        r == (spec@.len() > 0 && vim_kin(program_name(spec@[0]@))),
{
    if spec.len() == 0 {
        return false;
    }
    let name = basename(&spec[0]);
    same(&name, "vim") || same(&name, "nvim") || same(&name, "vi") || same(&name, "gvim") || same(
        &name,
        "mvim",
    )
}

/// The arguments that make vim source a script and open its list.
pub open spec fn quickfix_args(path: Seq<char>) -> Seq<Seq<char>> {
    seq!["-S"@, path, "-c"@, "copen"@, "-c"@, "silent! cfirst"@]
}

pub fn quickfix_command(spec: &[String], path: &str) -> (r: Option<(String, Vec<String>)>)
    ensures
        match r {
            None => spec@.len() == 0,
            Some((program, args)) => spec@.len() > 0 && program@ == spec@[0]@ && texts(args@)
                == texts(spec@).skip(1) + quickfix_args(path@),
        },
{
    if spec.len() == 0 {
        return None;
    }
    let mut args = rest_of(spec);
    let ghost a = texts(args@);
    args.push("-S".to_owned());
    args.push(path.to_owned());
    args.push("-c".to_owned());
    args.push("copen".to_owned());
    args.push("-c".to_owned());
    args.push("silent! cfirst".to_owned());
    assert(texts(args@) == a + quickfix_args(path@));
    Some((spec[0].clone(), args))
}

} // verus!
