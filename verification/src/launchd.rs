//! The agent that launchd runs on macOS.

use crate::config::{home_dir, AppConfig};
use crate::text::{
    chars_of, decimal, decimal_text, find, has_char, has_prefix, is_white, is_within, join, join_texts,
    lemma_find_is, lemma_within, lines, opt_text, split_lines, text_after, texts, trim, trim_text,
    trimming_takes_outer_white,
};
use crate::undo::{below, path_below};
use vstd::prelude::*;

verus! {

// ---------------------------------------------------------------------------
// Paths
// ---------------------------------------------------------------------------

/// The home directory, or the working directory where there is none.
pub open spec fn home_or_here(home: Option<Seq<char>>) -> Seq<char> {
    match home {
        Some(h) => h,
        None => "."@,
    }
}

/// A path below the home directory.
pub fn path_in_home(home: &Option<String>, name: &str) -> (r: String)
    ensures
        r@ == below(home_or_here(opt_text(*home)), name@),
{
    match home {
        Some(h) => path_below(h.as_str(), name),
        None => path_below(".", name),
    }
}

/// The path of the agent's property list.
pub fn plist_path() -> (r: String)
    ensures
        exists|home: Option<Seq<char>>|
            r@ == below(
                #[trigger] home_or_here(home),
                "Library/LaunchAgents/me.83noit.remtodo.agent.plist"@,
            ),
{
    let home = home_dir();
    path_in_home(&home, "Library/LaunchAgents/me.83noit.remtodo.agent.plist")
}

/// The path of the agent's log.
pub fn log_path() -> (r: String)
    ensures
        exists|home: Option<Seq<char>>|
            r@ == below(#[trigger] home_or_here(home), "Library/Logs/remtodo.log"@),
{
    let home = home_dir();
    path_in_home(&home, "Library/Logs/remtodo.log")
}

// ---------------------------------------------------------------------------
// The property list
// ---------------------------------------------------------------------------

/// What stands for a character in the text of an XML element.
pub open spec fn xml_char(c: char) -> Seq<char> {
    if c == '&' {
        "&amp;"@
    } else if c == '<' {
        "&lt;"@
    } else if c == '>' {
        "&gt;"@
    } else if c == '"' {
        "&quot;"@
    } else {
        seq![c]
    }
}

/// A text as the content of an XML element.
pub open spec fn xml_escaped(s: Seq<char>) -> Seq<char>
    decreases s.len(),
{
    if s.len() == 0 {
        Seq::empty()
    } else {
        xml_escaped(s.drop_last()) + xml_char(s.last())
    }
}

/// A text as the content of an XML element.
pub fn xml_escape(s: &str) -> (r: String)
    ensures
        r@ == xml_escaped(s@),
{
    let cs = chars_of(s);
    let mut out = String::new();
    assert(s@.take(0) =~= Seq::<char>::empty());
    for i in 0..cs.len()
        invariant
            cs@ == s@,
            out@ == xml_escaped(s@.take(i as int)),
    {
        let ghost more = s@.take(i + 1);
        assert(more.drop_last() =~= s@.take(i as int));
        assert(more.last() == cs@[i as int]);
        let c = cs[i];
        if c == '&' {
            out = out.concat("&amp;");
        } else if c == '<' {
            out = out.concat("&lt;");
        } else if c == '>' {
            out = out.concat("&gt;");
        } else if c == '"' {
            out = out.concat("&quot;");
        } else {
            let ghost before = out@;
            out.push(c);
            assert(out@ =~= before + seq![c]);
        }
    }
    assert(s@.take(s@.len() as int) =~= s@);
    out
}

/// An argument in the property list.
pub open spec fn argument_line(s: Seq<char>) -> Seq<char> {
    "        <string>"@ + xml_escaped(s) + "</string>"@
}

fn argument(s: &str) -> (r: String)
    ensures
        r@ == argument_line(s@),
{
    let text = xml_escape(s);
    "        <string>".to_owned().concat(text.as_str()).concat("</string>")
}

/// The lines of the arguments that the agent is started with.
pub open spec fn argument_lines(exe: Seq<char>, config: Option<Seq<char>>) -> Seq<Seq<char>> {
    let sync = seq![argument_line(exe), "        <string>sync</string>"@];
    match config {
        Some(path) => sync.push("        <string>--config</string>"@).push(argument_line(path)),
        None => sync,
    }
}

/// The part of the property list that names the helper program.
pub open spec fn helper_part(helper: Option<Seq<char>>) -> Seq<char> {
    match helper {
        Some(path) =>
            "\n    <key>EnvironmentVariables</key>\n    <dict>\n        <key>REMINDERS_HELPER</key>\n        <string>"@
            + xml_escaped(path) + "</string>\n    </dict>"@,
        None => Seq::empty(),
    }
}

/// The property list of the agent.
pub open spec fn plist_text(
    exe: Seq<char>,
    config: Option<Seq<char>>,
    interval: u64,
    helper: Option<Seq<char>>,
    log: Seq<char>,
) -> Seq<char> {
    "<?xml version=\"1.0\" encoding=\"UTF-8\"?>\n<!DOCTYPE plist PUBLIC \"-//Apple//DTD PLIST 1.0//EN\" \"http://www.apple.com/DTDs/PropertyList-1.0.dtd\">\n<plist version=\"1.0\">\n<dict>\n    <key>Label</key>\n    <string>me.83noit.remtodo.agent</string>\n    <key>ProgramArguments</key>\n    <array>\n"@
        + join(argument_lines(exe, config), "\n"@)
        + "\n    </array>\n    <key>StartInterval</key>\n    <integer>"@ + decimal(interval as nat)
        + "</integer>\n    <key>RunAtLoad</key>\n    <true/>"@ + helper_part(helper)
        + "\n    <key>StandardOutPath</key>\n    <string>"@ + xml_escaped(log)
        + "</string>\n    <key>StandardErrorPath</key>\n    <string>"@ + xml_escaped(log)
        + "</string>\n</dict>\n</plist>\n"@
}

/// The property list of the agent, given the paths of this program, of the
/// configuration, of the helper program and of the log.
pub fn generate_plist(
    app_config: &AppConfig,
    config_path: Option<&str>,
    exe: &str,
    helper: Option<&str>,
    log: &str,
) -> (r: String)
    ensures
        r@ == plist_text(
            exe@,
            match config_path {
                Some(p) => Some(p@),
                None => None,
            },
            app_config.poll_interval_secs,
            match helper {
                Some(p) => Some(p@),
                None => None,
            },
            log@,
        ),
{
    let ghost config = match config_path {
        Some(p) => Some(p@),
        None => None,
    };
    let mut args: Vec<String> = Vec::new();
    args.push(argument(exe));
    args.push("        <string>sync</string>".to_owned());
    if let Some(path) = config_path {
        args.push("        <string>--config</string>".to_owned());
        args.push(argument(path));
    }
    assert(texts(args@) =~= argument_lines(exe@, config));
    let arg_text = join_texts(&args, "\n");
    let helper_text = match helper {
        Some(path) => {
            let text = xml_escape(path);
            "\n    <key>EnvironmentVariables</key>\n    <dict>\n        <key>REMINDERS_HELPER</key>\n        <string>".to_owned().concat(
                text.as_str(),
            ).concat("</string>\n    </dict>")
        },
        None => String::new(),
    };
    let interval = decimal_text(app_config.poll_interval_secs);
    let log_text = xml_escape(log);
    "<?xml version=\"1.0\" encoding=\"UTF-8\"?>\n<!DOCTYPE plist PUBLIC \"-//Apple//DTD PLIST 1.0//EN\" \"http://www.apple.com/DTDs/PropertyList-1.0.dtd\">\n<plist version=\"1.0\">\n<dict>\n    <key>Label</key>\n    <string>me.83noit.remtodo.agent</string>\n    <key>ProgramArguments</key>\n    <array>\n".to_owned().concat(
        arg_text.as_str(),
    ).concat("\n    </array>\n    <key>StartInterval</key>\n    <integer>").concat(
        interval.as_str(),
    ).concat("</integer>\n    <key>RunAtLoad</key>\n    <true/>").concat(
        helper_text.as_str(),
    ).concat("\n    <key>StandardOutPath</key>\n    <string>").concat(log_text.as_str()).concat(
        "</string>\n    <key>StandardErrorPath</key>\n    <string>",
    ).concat(log_text.as_str()).concat("</string>\n</dict>\n</plist>\n")
}

/// Whether the path of the todo.txt file does not depend on the directory that
/// the agent is started in.
pub fn has_fixed_output(app_config: &AppConfig) -> (r: bool)
    ensures
        r == (app_config.output@.len() > 0 && (app_config.output@[0] == '/'
            || app_config.output@[0] == '~')),
{
    let s = app_config.output.as_str();
    s.unicode_len() > 0 && (s.get_char(0) == '/' || s.get_char(0) == '~')
}

// ---------------------------------------------------------------------------
// Status
// ---------------------------------------------------------------------------

/// A text without the characters `c` at its end.
pub open spec fn trim_end_of(s: Seq<char>, c: char) -> Seq<char>
    decreases s.len(),
{
    if s.len() > 0 && s.last() == c {
        trim_end_of(s.drop_last(), c)
    } else {
        s
    }
}

/// A text without the characters `c` at its start.
pub open spec fn trim_start_of(s: Seq<char>, c: char) -> Seq<char>
    decreases s.len(),
{
    if s.len() > 0 && s[0] == c {
        trim_start_of(s.skip(1), c)
    } else {
        s
    }
}

fn strip_end(s: &String, c: char) -> (r: String)
    ensures
        r@ == trim_end_of(s@, c),
{
    let text = s.as_str();
    let mut n: usize = text.unicode_len();
    assert(s@.take(n as int) =~= s@);
    while n > 0 && text.get_char(n - 1) == c
        invariant
            text@ == s@,
            n <= s@.len(),
            trim_end_of(s@.take(n as int), c) == trim_end_of(s@, c),
        decreases n,
    {
        assert(s@.take(n as int).drop_last() =~= s@.take(n - 1));
        n = n - 1;
    }
    let r = text.substring_char(0, n).to_owned();
    assert(r@ =~= s@.take(n as int));
    r
}

fn strip_start(s: &String, c: char) -> (r: String)
    ensures
        r@ == trim_start_of(s@, c),
{
    let text = s.as_str();
    let len: usize = text.unicode_len();
    let mut n: usize = 0;
    assert(s@.skip(0) =~= s@);
    while n < len && text.get_char(n) == c
        invariant
            text@ == s@,
            len == s@.len(),
            n <= len,
            trim_start_of(s@.skip(n as int), c) == trim_start_of(s@, c),
        decreases len - n,
    {
        assert(s@.skip(n as int)[0] == s@[n as int]);
        assert(s@.skip(n as int).skip(1) =~= s@.skip(n + 1));
        n = n + 1;
    }
    assert(n < len ==> s@.skip(n as int)[0] == s@[n as int]);
    text_after(text, n)
}

/// The value that follows an equals sign: without the semicolon behind it and
/// without quotes.
pub open spec fn launchctl_value(s: Seq<char>) -> Seq<char> {
    trim_start_of(trim_end_of(trim(trim_end_of(trim(s), ';')), '"'), '"')
}

/// The value that a line of launchctl's output gives a key.
pub open spec fn value_in_line(line: Seq<char>, key: Seq<char>) -> Option<Seq<char>> {
    let t = trim(line);
    if ("\""@ + key + "\""@).is_prefix_of(t) && t.contains('=') {
        Some(launchctl_value(t.skip(find(t, '=') as int + 1)))
    } else {
        None
    }
}

/// The value of the first line that gives one.
pub open spec fn value_in_lines(ls: Seq<Seq<char>>, key: Seq<char>) -> Option<Seq<char>>
    decreases ls.len(),
{
    if ls.len() == 0 {
        None
    } else {
        match value_in_line(ls[0], key) {
            Some(v) => Some(v),
            None => value_in_lines(ls.skip(1), key),
        }
    }
}

/// The value of a key in what `launchctl list` prints: lines such as
/// `"PID" = 12345;`.
pub fn parse_launchctl_value(output: &str, key: &str) -> (r: Option<String>)
    ensures
        opt_text(r) == value_in_lines(lines(output@), key@),
{
    let quoted = "\"".to_owned().concat(key).concat("\"");
    let ls = split_lines(output);
    let ghost all = lines(output@);
    assert(all.skip(0) =~= all);
    for i in 0..ls.len()
        invariant
            quoted@ == "\""@ + key@ + "\""@,
            all == lines(output@),
            texts(ls@) == all,
            value_in_lines(all.skip(i as int), key@) == value_in_lines(all, key@),
    {
        assert(all.skip(i as int)[0] == all[i as int]);
        assert(all[i as int] == ls@[i as int]@);
        assert(all.skip(i as int).skip(1) =~= all.skip(i + 1));
        let t = trim_text(ls[i].as_str());
        if has_prefix(t.as_str(), quoted.as_str()) && has_char(t.as_str(), '=') {
            let n: usize = t.as_str().unicode_len();
            let mut p: usize = 0;
            proof {
                crate::text::lemma_find(t@, '=');
            }
            while p < n && t.as_str().get_char(p) != '='
                invariant
                    n == t@.len(),
                    p <= find(t@, '='),
                    find(t@, '=') <= n,
                    forall|j: int| 0 <= j < p ==> #[trigger] t@[j] != '=',
                    find(t@, '=') < n ==> t@[find(t@, '=') as int] == '=',
                decreases n - p,
            {
                p = p + 1;
            }
            proof {
                crate::text::lemma_find_is(t@, '=', p as int);
                assert(p < n) by {
                    let k = t@.index_of('=');
                    assert(t@[k] == '=');
                }
            }
            let value = text_after(t.as_str(), p + 1);
            let v = trim_text(value.as_str());
            let v = strip_end(&v, ';');
            let v = trim_text(v.as_str());
            let v = strip_end(&v, '"');
            let v = strip_start(&v, '"');
            return Some(v);
        }
    }
    None
}

/// What asking launchctl about the agent came to.
#[derive(Debug)]
pub enum AgentReply {
    /// The agent is loaded; this was printed about it.
    Listed(String),
    /// The agent is not loaded.
    NotLoaded,
    /// launchctl could not be run, for this reason.
    Failed(String),
}

/// The lines that tell about the agent.
pub open spec fn agent_report(reply: AgentReply) -> Seq<Seq<char>> {
    match reply {
        AgentReply::Listed(out) => {
            let status = match value_in_lines(lines(out@), "PID"@) {
                Some(p) => "Status: running (PID "@ + p + ")"@,
                None => "Status: loaded (not currently running)"@,
            };
            match value_in_lines(lines(out@), "LastExitStatus"@) {
                Some(s) => if s == "0"@ {
                    seq![status, "LastExitStatus: "@ + s + " (ok)"@]
                } else {
                    seq![status, "LastExitStatus: "@ + s + " (non-zero — check logs)"@]
                },
                None => seq![status],
            }
        },
        AgentReply::NotLoaded => seq!["Status: not loaded"@],
        AgentReply::Failed(e) => seq!["Failed to run launchctl: "@ + e@],
    }
}

/// The lines that tell about the agent.
pub fn agent_status(reply: &AgentReply) -> (r: Vec<String>)
    ensures
        texts(r@) == agent_report(*reply),
{
    let mut out: Vec<String> = Vec::new();
    match reply {
        AgentReply::Listed(text) => {
            match parse_launchctl_value(text.as_str(), "PID") {
                Some(p) => {
                    out.push(
                        "Status: running (PID ".to_owned().concat(p.as_str()).concat(")"),
                    );
                },
                None => {
                    out.push("Status: loaded (not currently running)".to_owned());
                },
            }
            match parse_launchctl_value(text.as_str(), "LastExitStatus") {
                Some(s) => {
                    let line = "LastExitStatus: ".to_owned().concat(s.as_str());
                    if s == "0".to_owned() {
                        out.push(line.concat(" (ok)"));
                    } else {
                        out.push(line.concat(" (non-zero — check logs)"));
                    }
                },
                None => {},
            }
        },
        AgentReply::NotLoaded => {
            out.push("Status: not loaded".to_owned());
        },
        AgentReply::Failed(e) => {
            out.push("Failed to run launchctl: ".to_owned().concat(e.as_str()));
        },
    }
    assert(texts(out@) =~= agent_report(*reply));
    out
}

/// The last `n` of some lines.
pub open spec fn last_lines(ls: Seq<Seq<char>>, n: nat) -> Seq<Seq<char>> {
    if ls.len() <= n {
        ls
    } else {
        ls.skip(ls.len() - n)
    }
}

/// The last `n` lines of a log.
pub fn log_tail(content: &str, n: usize) -> (r: Vec<String>)
    ensures
        texts(r@) == last_lines(lines(content@), n as nat),
{
    let ls = split_lines(content);
    let ghost all = lines(content@);
    let from: usize = if ls.len() <= n {
        0
    } else {
        ls.len() - n
    };
    assert(texts(ls@).len() == ls@.len());
    assert(last_lines(all, n as nat) =~= all.skip(from as int));
    let mut out: Vec<String> = Vec::new();
    assert(texts(out@) =~= all.subrange(from as int, from as int));
    for i in from..ls.len()
        invariant
            from <= ls@.len(),
            all == texts(ls@),
            texts(out@) == all.subrange(from as int, i as int),
    {
        let ghost before = texts(out@);
        out.push(ls[i].clone());
        assert(texts(out@) =~= before.push(all[i as int]));
        assert(texts(out@) =~= all.subrange(from as int, i + 1));
    }
    assert(all.subrange(from as int, all.len() as int) =~= all.skip(from as int));
    out
}

// ---------------------------------------------------------------------------
// What holds of the agent's texts
// ---------------------------------------------------------------------------

/// Texts are escaped character by character: those that XML reserves are named, the others
/// stay. What comes out can be told apart, and holds no bracket and no quote.
pub proof fn escaping_is_by_character(a: Seq<char>, b: Seq<char>, c: char)
    ensures
        xml_escaped(a + b) == xml_escaped(a) + xml_escaped(b),
        xml_escaped(seq!['&']) == "&amp;"@,
        xml_escaped(seq!['<']) == "&lt;"@,
        xml_escaped(seq!['>']) == "&gt;"@,
        xml_escaped(seq!['"']) == "&quot;"@,
        c != '&' && c != '<' && c != '>' && c != '"' ==> xml_escaped(seq![c]) == seq![c],
        !xml_escaped(a).contains('<'),
        !xml_escaped(a).contains('>'),
        !xml_escaped(a).contains('"'),
    decreases b.len() + a.len(),
{
    lemma_escape_one('&');
    lemma_escape_one('<');
    lemma_escape_one('>');
    lemma_escape_one('"');
    lemma_escape_one(c);
    lemma_escape_add(a, b);
    lemma_escaped_clean(a);
}

proof fn lemma_escape_one(c: char)
    ensures
        xml_escaped(seq![c]) == xml_char(c),
{
    assert(seq![c].drop_last() =~= Seq::<char>::empty());
    assert(xml_escaped(seq![c].drop_last()) == Seq::<char>::empty());
    assert(xml_escaped(seq![c]) =~= xml_char(c));
}

proof fn lemma_escape_add(a: Seq<char>, b: Seq<char>)
    ensures
        xml_escaped(a + b) == xml_escaped(a) + xml_escaped(b),
    decreases b.len(),
{
    if b.len() == 0 {
        assert(a + b =~= a);
        assert(xml_escaped(a) + xml_escaped(b) =~= xml_escaped(a));
    } else {
        assert((a + b).drop_last() =~= a + b.drop_last());
        lemma_escape_add(a, b.drop_last());
        assert(xml_escaped(a + b) =~= xml_escaped(a) + xml_escaped(b));
    }
}

proof fn lemma_escaped_clean(a: Seq<char>)
    ensures
        forall|i: int|
            0 <= i < xml_escaped(a).len() ==> #[trigger] xml_escaped(a)[i] != '<' && xml_escaped(
                a,
            )[i] != '>' && xml_escaped(a)[i] != '"',
    decreases a.len(),
{
    reveal_strlit("&amp;");
    reveal_strlit("&lt;");
    reveal_strlit("&gt;");
    reveal_strlit("&quot;");
    if a.len() > 0 {
        lemma_escaped_clean(a.drop_last());
        let front = xml_escaped(a.drop_last());
        let end = xml_char(a.last());
        let all = xml_escaped(a);
        assert forall|i: int| 0 <= i < all.len() implies #[trigger] all[i] != '<' && all[i] != '>'
            && all[i] != '"' by {
            if i < front.len() {
                assert(all[i] == front[i]);
            } else {
                assert(all[i] == end[i - front.len()]);
            }
        }
    }
}

/// Whether a value can be told from what stands around it in launchctl's output.
pub open spec fn is_plain_value(v: Seq<char>) -> bool {
    &&& v.len() > 0
    &&& !is_white(v[0]) && !is_white(v.last())
    &&& v[0] != '"' && v.last() != '"'
    &&& v.last() != ';'
}

proof fn lemma_trims(v: Seq<char>)
    requires
        is_plain_value(v),
    ensures
        trim_end_of(v.push(';'), ';') == v,
        trim_end_of(v, '"') == v,
        trim_start_of(v, '"') == v,
        trim_end_of(v.push('"'), '"') == v,
        trim_start_of(seq!['"'] + v, '"') == v,
        trim_end_of(seq!['"'] + v + seq!['"'], '"') == seq!['"'] + v,
{
    assert(trim_end_of(v, ';') == v);
    assert(trim_end_of(v, '"') == v);
    assert(trim_start_of(v, '"') == v);
    assert(v.push(';').drop_last() =~= v);
    assert(v.push('"').drop_last() =~= v);
    assert((seq!['"'] + v).skip(1) =~= v);
    assert((seq!['"'] + v)[0] == '"');
    let q = seq!['"'] + v + seq!['"'];
    assert(q.drop_last() =~= seq!['"'] + v);
    assert((seq!['"'] + v).last() == v.last());
    assert(trim_end_of(seq!['"'] + v, '"') == seq!['"'] + v);
}

/// The value of a key is read from a line that gives one, with or without quotes around
/// it, whatever white space is around the line.
pub proof fn value_is_read(
    before: Seq<char>,
    key: Seq<char>,
    v: Seq<char>,
    after: Seq<char>,
)
    requires
        forall|i: int| 0 <= i < before.len() ==> is_white(#[trigger] before[i]),
        forall|i: int| 0 <= i < after.len() ==> is_white(#[trigger] after[i]),
        !key.contains('='),
        is_plain_value(v),
    ensures
        value_in_line(before + ("\""@ + key + "\" = "@ + v + ";"@) + after, key) == Some(v),
        value_in_line(before + ("\""@ + key + "\" = \""@ + v + "\";"@) + after, key) == Some(v),
{
    reveal_strlit("\"");
    reveal_strlit("\" = ");
    reveal_strlit("\" = \"");
    reveal_strlit(";");
    reveal_strlit("\";");
    lemma_trims(v);
    let quoted = "\""@ + key + "\""@;
    let n = key.len() as int;
    let plain = "\""@ + key + "\" = "@ + v + ";"@;
    let dressed = "\""@ + key + "\" = \""@ + v + "\";"@;
    let q = seq!['"'] + v + seq!['"'];
    trimming_takes_outer_white(before, plain, after);
    trimming_takes_outer_white(before, dressed, after);
    assert(plain.take(n + 2) =~= quoted);
    assert(dressed.take(n + 2) =~= quoted);
    assert(plain[n + 3] == '=');
    assert(dressed[n + 3] == '=');
    assert forall|i: int| 0 <= i < n + 3 implies #[trigger] plain[i] != '=' && dressed[i] != '=' by {
        if 0 < i <= n {
            assert(plain[i] == key[i - 1]);
            assert(dressed[i] == key[i - 1]);
            assert(key.contains(key[i - 1]));
        }
    }
    assert forall|i: int| 0 <= i < n + 3 implies #[trigger] dressed[i] != '=' by {
        assert(plain[i] != '=');
    }
    lemma_find_is(plain, '=', n + 3);
    lemma_find_is(dressed, '=', n + 3);
    let blank = seq![' '];
    assert(plain.skip(n + 4) =~= blank + v.push(';') + Seq::<char>::empty());
    assert(dressed.skip(n + 4) =~= blank + q.push(';') + Seq::<char>::empty());
    trimming_takes_outer_white(blank, v.push(';'), Seq::empty());
    trimming_takes_outer_white(blank, q.push(';'), Seq::empty());
    assert(Seq::<char>::empty() + v + Seq::<char>::empty() =~= v);
    assert(Seq::<char>::empty() + q + Seq::<char>::empty() =~= q);
    trimming_takes_outer_white(Seq::empty(), v, Seq::empty());
    trimming_takes_outer_white(Seq::empty(), q, Seq::empty());
    assert(q.push(';').drop_last() =~= q);
    assert(q.last() == '"');
    assert(trim_end_of(q.push(';'), ';') == trim_end_of(q, ';'));
    assert(trim_end_of(q, ';') == q);
}

/// The first line that gives a key a value counts.
pub proof fn first_value_counts(ls: Seq<Seq<char>>, key: Seq<char>, k: int)
    ensures
        0 <= k < ls.len() && value_in_line(ls[k], key) is Some && (forall|m: int|
            0 <= m < k ==> value_in_line(#[trigger] ls[m], key) is None) ==> value_in_lines(ls, key)
            == value_in_line(ls[k], key),
        (forall|m: int| 0 <= m < ls.len() ==> value_in_line(#[trigger] ls[m], key) is None)
            ==> value_in_lines(ls, key) is None,
    decreases ls.len(),
{
    if ls.len() > 0 {
        let rest = ls.skip(1);
        first_value_counts(rest, key, k - 1);
        if (0 < k < ls.len() && value_in_line(ls[k], key) is Some && (forall|m: int|
            0 <= m < k ==> value_in_line(#[trigger] ls[m], key) is None)) {
            assert(value_in_line(ls[0], key) is None);
            assert(rest[k - 1] == ls[k]);
            assert forall|m: int| 0 <= m < k - 1 implies value_in_line(#[trigger] rest[m], key)
                is None by {
                assert(rest[m] == ls[m + 1]);
            }
        }
        if forall|m: int| 0 <= m < ls.len() ==> value_in_line(#[trigger] ls[m], key) is None {
            assert(value_in_line(ls[0], key) is None);
            assert forall|m: int| 0 <= m < rest.len() implies value_in_line(#[trigger] rest[m], key)
                is None by {
                assert(rest[m] == ls[m + 1]);
            }
        }
    }
}

/// The last lines are the end of all lines: as many as were asked for, or all of them.
pub proof fn tail_is_the_end(ls: Seq<Seq<char>>, n: nat)
    ensures
        last_lines(ls, n).len() == if ls.len() < n {
            ls.len()
        } else {
            n
        },
        forall|i: int|
            0 <= i < last_lines(ls, n).len() ==> #[trigger] last_lines(ls, n)[i] == ls[ls.len()
                - last_lines(ls, n).len() + i],
{
}

proof fn lemma_within_join(ls: Seq<Seq<char>>, sep: Seq<char>, i: int)
    requires
        0 <= i < ls.len(),
    ensures
        is_within(ls[i], join(ls, sep)),
    decreases ls.len(),
{
    let none = Seq::<char>::empty();
    if ls.len() == 1 {
        assert(join(ls, sep) =~= none + ls[i] + none);
    } else {
        let front = join(ls.drop_last(), sep);
        if i == ls.len() - 1 {
            assert(join(ls, sep) =~= (front + sep) + ls[i] + none);
        } else {
            lemma_within_join(ls.drop_last(), sep, i);
            assert(ls.drop_last()[i] == ls[i]);
            let (a, b) = choose|a: Seq<char>, b: Seq<char>| front == #[trigger] (a + ls[i] + b);
            assert(join(ls, sep) =~= a + ls[i] + (b + sep + ls.last()));
        }
    }
}

proof fn lemma_within_twice(part: Seq<char>, mid: Seq<char>, a: Seq<char>, b: Seq<char>)
    requires
        is_within(part, mid),
    ensures
        is_within(part, a + mid + b),
{
    let (x, y) = choose|x: Seq<char>, y: Seq<char>| mid == #[trigger] (x + part + y);
    assert(a + mid + b =~= (a + x) + part + (y + b));
}

/// The property list starts this program for a sync, with the configuration where one is
/// given, after every interval, with the helper where one is given, and writes to the
/// log. All texts in it are escaped.
pub proof fn plist_names_everything(
    exe: Seq<char>,
    config: Option<Seq<char>>,
    interval: u64,
    helper: Option<Seq<char>>,
    log: Seq<char>,
)
    ensures
        ({
            let plist = plist_text(exe, config, interval, helper, log);
            &&& is_within("        <string>"@ + xml_escaped(exe) + "</string>"@, plist)
            &&& is_within("        <string>sync</string>"@, plist)
            &&& config matches Some(c) ==> is_within("        <string>--config</string>"@, plist)
                && is_within("        <string>"@ + xml_escaped(c) + "</string>"@, plist)
            &&& is_within("<integer>"@ + decimal(interval as nat) + "</integer>"@, plist)
            &&& helper matches Some(h) ==> is_within(xml_escaped(h), plist)
            &&& is_within(xml_escaped(log), plist)
        }),
{
    let plist = plist_text(exe, config, interval, helper, log);
    let ls = argument_lines(exe, config);
    let args = join(ls, "\n"@);
    let s1 = "<?xml version=\"1.0\" encoding=\"UTF-8\"?>\n<!DOCTYPE plist PUBLIC \"-//Apple//DTD PLIST 1.0//EN\" \"http://www.apple.com/DTDs/PropertyList-1.0.dtd\">\n<plist version=\"1.0\">\n<dict>\n    <key>Label</key>\n    <string>me.83noit.remtodo.agent</string>\n    <key>ProgramArguments</key>\n    <array>\n"@;
    let s2 = "\n    </array>\n    <key>StartInterval</key>\n    <integer>"@;
    let s3 = "</integer>\n    <key>RunAtLoad</key>\n    <true/>"@;
    let s4 = "\n    <key>StandardOutPath</key>\n    <string>"@;
    let s5 = "</string>\n    <key>StandardErrorPath</key>\n    <string>"@;
    let s6 = "</string>\n</dict>\n</plist>\n"@;
    let n = decimal(interval as nat);
    let part = helper_part(helper);
    let text = xml_escaped(log);
    let behind = s2 + n + s3 + part + s4 + text + s5 + text + s6;
    assert(plist =~= s1 + args + behind);
    lemma_within_join(ls, "\n"@, 0);
    lemma_within_twice(ls[0], args, s1, behind);
    lemma_within_join(ls, "\n"@, 1);
    lemma_within_twice(ls[1], args, s1, behind);
    if config is Some {
        lemma_within_join(ls, "\n"@, 2);
        lemma_within_twice(ls[2], args, s1, behind);
        lemma_within_join(ls, "\n"@, 3);
        lemma_within_twice(ls[3], args, s1, behind);
    }
    reveal_strlit("\n    </array>\n    <key>StartInterval</key>\n    <integer>");
    reveal_strlit("</integer>\n    <key>RunAtLoad</key>\n    <true/>");
    reveal_strlit("<integer>");
    reveal_strlit("</integer>");
    let k = s2.len() - 9;
    assert(s2 =~= s2.take(k) + "<integer>"@);
    assert(s3 =~= "</integer>"@ + s3.skip(10));
    let middle = "<integer>"@ + n + "</integer>"@;
    assert(plist =~= (s1 + args + s2.take(k)) + middle + (s3.skip(10) + part + s4 + text + s5 + text
        + s6));
    assert(plist =~= (s1 + args + s2 + n + s3 + part + s4) + text + (s5 + text + s6));
    if let Some(h) = helper {
        let h1 =
            "\n    <key>EnvironmentVariables</key>\n    <dict>\n        <key>REMINDERS_HELPER</key>\n        <string>"@;
        let h2 = "</string>\n    </dict>"@;
        assert(part == h1 + xml_escaped(h) + h2);
        assert(plist =~= (s1 + args + s2 + n + s3 + h1) + xml_escaped(h) + (h2 + s4 + text + s5
            + text + s6));
    }
}

/// What is told about the agent: the process number where it runs, and what the last run
/// came to where that is known. Where launchctl could not be run, the reason is told.
pub proof fn report_tells_all(reply: AgentReply)
    ensures
        reply matches AgentReply::Listed(out) ==> ({
            let report = agent_report(reply);
            let pid = value_in_lines(lines(out@), "PID"@);
            let exit = value_in_lines(lines(out@), "LastExitStatus"@);
            &&& pid matches Some(p) ==> is_within(p, report[0]) && is_within(
                "running (PID "@ + p,
                report[0],
            )
            &&& pid is None ==> report[0] == "Status: loaded (not currently running)"@
            &&& exit is None ==> report.len() == 1
            &&& exit matches Some(s) ==> report.len() == 2 && is_within(s, report[1]) && (is_within(
                "LastExitStatus: "@ + s + " (ok)"@,
                report[1],
            ) || s != "0"@)
        }),
        reply matches AgentReply::NotLoaded ==> agent_report(reply) == seq!["Status: not loaded"@],
        reply matches AgentReply::Failed(e) ==> agent_report(reply).len() == 1 && is_within(
            e@,
            agent_report(reply)[0],
        ),
{
    match reply {
        AgentReply::Listed(out) => {
            if let Some(p) = value_in_lines(lines(out@), "PID"@) {
                reveal_strlit("Status: running (PID ");
                reveal_strlit("running (PID ");
                lemma_within("Status: running (PID "@, p, ")"@);
                let head = "Status: running (PID "@;
                assert(head =~= head.take(8) + "running (PID "@);
                let part = "running (PID "@ + p;
                assert(head + p + ")"@ =~= head.take(8) + part + ")"@);
                lemma_within(head.take(8), part, ")"@);
            }
            if let Some(s) = value_in_lines(lines(out@), "LastExitStatus"@) {
                lemma_within("LastExitStatus: "@, s, " (ok)"@);
                lemma_within("LastExitStatus: "@, s, " (non-zero — check logs)"@);
                let line = "LastExitStatus: "@ + s + " (ok)"@;
                let none = Seq::<char>::empty();
                assert(line =~= none + line + none);
                lemma_within(none, line, none);
            }
        },
        AgentReply::NotLoaded => {},
        AgentReply::Failed(e) => {
            lemma_within("Failed to run launchctl: "@, e@, e@);
        },
    }
}

} // verus!
