//! What a launch of Codex does: which account to apply, which path to
//! resolve, and the command line to start it with.

use vstd::prelude::*;
use vstd::string::StringExecFns;

use crate::plugin_unlock::{allow_origins_arg, debugging_port_arg, plugin_unlock_arguments};
use crate::settings::{accounts_view, has_active, is_active_at, strings_view, Account, AppSettings};
use crate::text::{
    chars_of, has_prefix, join, push_all, starts_with, string_of, trim, trim_str,
};

verus! {

/// A request to launch Codex.
#[derive(Debug)]
pub struct LaunchRequest {
    pub codex_app_path: String,
    pub extra_args: Vec<String>,
}

/// A switch that opens or configures Codex's remote debugging.
pub open spec fn spec_is_remote_debug_arg(a: Seq<char>) -> bool {
    let t = trim(a);
    ||| starts_with(t, "--remote-debugging-port"@)
    ||| starts_with(t, "--remote-allow-origins"@)
    ||| starts_with(t, "--remote-debugging-address"@)
}

/// Whether `value` opens or configures Codex's remote debugging.
pub fn is_remote_debug_arg(value: &str) -> (r: bool)
    ensures
        r == spec_is_remote_debug_arg(value@),
{
    let t = trim_str(value);
    has_prefix(t.as_slice(), chars_of("--remote-debugging-port").as_slice()) || has_prefix(
        t.as_slice(),
        chars_of("--remote-allow-origins").as_slice(),
    ) || has_prefix(t.as_slice(), chars_of("--remote-debugging-address").as_slice())
}

/// A user argument that is passed on: not blank, and not a debugging switch
/// when the plugin unlock owns the debugging port.
pub open spec fn passes_extra_arg(a: Seq<char>, plugin_enabled: bool) -> bool {
    trim(a).len() > 0 && !(plugin_enabled && spec_is_remote_debug_arg(a))
}

/// The user arguments passed on, in order.
pub open spec fn passed_extra_args(args: Seq<Seq<char>>, plugin_enabled: bool) -> Seq<Seq<char>>
    decreases args.len(),
{
    if args.len() == 0 {
        seq![]
    } else if passes_extra_arg(args.last(), plugin_enabled) {
        passed_extra_args(args.drop_last(), plugin_enabled).push(args.last())
    } else {
        passed_extra_args(args.drop_last(), plugin_enabled)
    }
}

/// What a launch does, decided from the request and the settings.
#[derive(Debug)]
pub struct LaunchPlan {
    /// Stop running Codex processes first.
    pub restart: bool,
    /// The active account, applied to Codex's files before the launch.
    pub account: Option<Account>,
    /// The path to resolve Codex from.
    pub codex_app_path: String,
    /// Open the debugging port and inject the plugin unlock.
    pub plugin_enabled: bool,
    /// The user's arguments: the settings' ones, then the request's.
    pub extra_args: Vec<String>,
}

/// Appends the arguments of `args` that are passed on.
fn push_passed_args(out: &mut Vec<String>, args: &Vec<String>, plugin_enabled: bool)
    ensures
        strings_view(final(out)@) == strings_view(old(out)@) + passed_extra_args(
            strings_view(args@),
            plugin_enabled,
        ),
{
    let ghost start = strings_view(out@);
    let ghost av = strings_view(args@);
    let mut i: usize = 0;
    while i < args.len()
        invariant
            i <= args@.len(),
            av == strings_view(args@),
            strings_view(out@) == start + passed_extra_args(av.take(i as int), plugin_enabled),
        decreases args@.len() - i,
    {
        let ghost pre = av.take(i + 1);
        assert(pre.drop_last() =~= av.take(i as int));
        assert(pre.last() == args@[i as int]@);
        let a = args[i].as_str();
        if trim_str(a).len() > 0 && !(plugin_enabled && is_remote_debug_arg(a)) {
            let ghost before = strings_view(out@);
            out.push(args[i].clone());
            assert(strings_view(out@) =~= before.push(args@[i as int]@));
        }
        i = i + 1;
    }
    assert(av.take(args@.len() as int) =~= av);
}

/// The plan's fields, decided from the request and the settings.
pub open spec fn plans_launch(p: LaunchPlan, request: LaunchRequest, settings: AppSettings, restart: bool) -> bool {
    &&& p.restart == restart
    &&& match p.account {
        Some(a) => exists|i: int|
            is_active_at(accounts_view(settings.accounts@), settings.active_account_id@, i)
                && a == settings.accounts@[i] && forall|k: int|
                0 <= k < i ==> !is_active_at(
                    accounts_view(settings.accounts@),
                    settings.active_account_id@,
                    k,
                ),
        None => !has_active(accounts_view(settings.accounts@), settings.active_account_id@),
    }
    &&& p.codex_app_path@ == if trim(request.codex_app_path@).len() == 0 {
        settings.codex_app_path@
    } else {
        request.codex_app_path@
    }
    &&& p.plugin_enabled == settings.plugin_enabled
    &&& strings_view(p.extra_args@) == passed_extra_args(
        strings_view(settings.launch_extra_args@),
        settings.plugin_enabled,
    ) + passed_extra_args(strings_view(request.extra_args@), settings.plugin_enabled)
}

fn plan_launch(request: LaunchRequest, settings: &AppSettings, restart: bool) -> (r: LaunchPlan)
    ensures
        plans_launch(r, request, *settings, restart),
{
    let account = match settings.active_account() {
        Some(a) => Some(a.clone()),
        None => None,
    };
    let codex_app_path = if trim_str(request.codex_app_path.as_str()).len() == 0 {
        settings.codex_app_path.clone()
    } else {
        request.codex_app_path.clone()
    };
    let mut extra_args: Vec<String> = Vec::new();
    push_passed_args(&mut extra_args, &settings.launch_extra_args, settings.plugin_enabled);
    push_passed_args(&mut extra_args, &request.extra_args, settings.plugin_enabled);
    assert(strings_view(extra_args@) =~= passed_extra_args(
        strings_view(settings.launch_extra_args@),
        settings.plugin_enabled,
    ) + passed_extra_args(strings_view(request.extra_args@), settings.plugin_enabled));
    LaunchPlan {
        restart,
        account,
        codex_app_path,
        plugin_enabled: settings.plugin_enabled,
        extra_args,
    }
}

/// Plans a launch of Codex with the settings as loaded.
pub fn launch_codex(request: LaunchRequest, settings: &AppSettings) -> (r: LaunchPlan)
    ensures
        plans_launch(r, request, *settings, false),
{
    plan_launch(request, settings, false)
}

/// Plans a restart of Codex: running Codex processes are stopped first.
pub fn restart_codex(request: LaunchRequest, settings: &AppSettings) -> (r: LaunchPlan)
    ensures
        plans_launch(r, request, *settings, true),
{
    plan_launch(request, settings, true)
}

/// The arguments Codex starts with: the debugging switches for `debug_port`
/// when the plugin unlock is on, then the user's arguments.
pub open spec fn spec_launch_arguments(plugin_enabled: bool, debug_port: Option<u16>, extra: Seq<Seq<char>>) -> Seq<Seq<char>> {
    match debug_port {
        Some(port) if plugin_enabled => seq![debugging_port_arg(port), allow_origins_arg(port)]
            + extra,
        _ => extra,
    }
}

/// The command line of the launch, given the debugging port chosen for it.
pub fn launch_arguments(plan: &LaunchPlan, debug_port: Option<u16>) -> (r: Vec<String>)
    requires
        plan.plugin_enabled ==> debug_port is Some,
    ensures
        strings_view(r@) == spec_launch_arguments(
            plan.plugin_enabled,
            debug_port,
            strings_view(plan.extra_args@),
        ),
{
    let mut args: Vec<String> = Vec::new();
    if plan.plugin_enabled {
        match debug_port {
            Some(port) => {
                let pa = plugin_unlock_arguments(port);
                args.push(pa[0].clone());
                args.push(pa[1].clone());
            },
            None => {},
        }
    }
    let ghost head = strings_view(args@);
    let mut i: usize = 0;
    while i < plan.extra_args.len()
        invariant
            i <= plan.extra_args@.len(),
            strings_view(args@) == head + strings_view(plan.extra_args@).take(i as int),
        decreases plan.extra_args@.len() - i,
    {
        let ghost before = strings_view(args@);
        args.push(plan.extra_args[i].clone());
        assert(strings_view(args@) =~= before.push(plan.extra_args@[i as int]@));
        i = i + 1;
        assert(strings_view(args@) =~= head + strings_view(plan.extra_args@).take(i as int));
    }
    assert(strings_view(plan.extra_args@).take(plan.extra_args@.len() as int) =~= strings_view(
        plan.extra_args@,
    ));
    args
}


/// `n` backslashes.
pub open spec fn backslashes(n: nat) -> Seq<char> {
    Seq::new(n, |i: int| '\\')
}

/// A character that forces an argument into quotes.
pub open spec fn needs_quotes_char(c: char) -> bool {
    c == ' ' || c == '\t' || c == '"'
}

/// The quoted text written so far and the backslashes still pending, after
/// reading `s`: a run of backslashes is doubled (plus one) before a quote and
/// kept as it is before any other character.
pub open spec fn quote_state(s: Seq<char>) -> (Seq<char>, nat)
    decreases s.len(),
{
    if s.len() == 0 {
        (seq![], 0)
    } else {
        let (out, pending) = quote_state(s.drop_last());
        let c = s.last();
        if c == '\\' {
            (out, pending + 1)
        } else if c == '"' {
            (out + backslashes(2 * pending + 1) + seq!['"'], 0)
        } else {
            (out + backslashes(pending) + seq![c], 0)
        }
    }
}

/// An argument as the Windows command line carries it: as it is when it is
/// not empty and has no space, tab or quote, else in quotes with quotes and
/// the backslashes before them escaped.
pub open spec fn spec_quote_windows_argument(arg: Seq<char>) -> Seq<char> {
    if arg.len() > 0 && forall|i: int| 0 <= i < arg.len() ==> !needs_quotes_char(#[trigger] arg[i]) {
        arg
    } else {
        let (out, pending) = quote_state(arg);
        seq!['"'] + out + backslashes(2 * pending) + seq!['"']
    }
}

fn push_backslashes(out: &mut Vec<char>, n: usize)
    ensures
        final(out)@ == old(out)@ + backslashes(n as nat),
{
    let ghost start = out@;
    let mut i: usize = 0;
    while i < n
        invariant
            i <= n,
            out@ == start + backslashes(i as nat),
        decreases n - i,
    {
        out.push('\\');
        i = i + 1;
        assert(out@ =~= start + backslashes(i as nat));
    }
}

/// Quotes an argument for the Windows command line.
pub fn quote_windows_argument(arg: &str) -> (r: String)
    ensures
        r@ == spec_quote_windows_argument(arg@),
{
    let a = chars_of(arg);
    let mut plain = a.len() > 0;
    let mut k: usize = 0;
    while k < a.len()
        invariant
            k <= a@.len(),
            plain == (a@.len() > 0 && forall|i: int| 0 <= i < k ==> !needs_quotes_char(#[trigger] a@[i])),
        decreases a@.len() - k,
    {
        if a[k] == ' ' || a[k] == '\t' || a[k] == '"' {
            plain = false;
        }
        k = k + 1;
    }
    if plain {
        return String::from_str(arg);
    }
    let mut out: Vec<char> = Vec::new();
    let mut pending: usize = 0;
    let mut i: usize = 0;
    while i < a.len()
        invariant
            i <= a@.len(),
            pending <= i,
            (out@, pending as nat) == quote_state(a@.take(i as int)),
        decreases a@.len() - i,
    {
        let ghost pre = a@.take(i + 1);
        assert(pre.drop_last() =~= a@.take(i as int));
        assert(pre.last() == a@[i as int]);
        let c = a[i];
        if c == '\\' {
            pending = pending + 1;
        } else if c == '"' {
            push_backslashes(&mut out, pending);
            push_backslashes(&mut out, pending);
            out.push('\\');
            assert(out@ =~= quote_state(a@.take(i as int)).0 + backslashes(2 * pending as nat + 1));
            out.push('"');
            pending = 0;
        } else {
            push_backslashes(&mut out, pending);
            out.push(c);
            pending = 0;
        }
        i = i + 1;
    }
    assert(a@.take(a@.len() as int) =~= a@);
    let mut quoted: Vec<char> = Vec::new();
    quoted.push('"');
    push_all(&mut quoted, out.as_slice());
    push_backslashes(&mut quoted, pending);
    push_backslashes(&mut quoted, pending);
    quoted.push('"');
    assert(quoted@ =~= seq!['"'] + out@ + backslashes(2 * pending as nat) + seq!['"']);
    string_of(quoted.as_slice())
}

/// The arguments quoted and joined by spaces.
pub open spec fn spec_command_line_arguments(args: Seq<Seq<char>>) -> Seq<char> {
    join(args.map_values(|a: Seq<char>| spec_quote_windows_argument(a)), seq![' '])
}

/// The Windows command line for the arguments.
pub fn command_line_arguments(args: &Vec<String>) -> (r: String)
    ensures
        r@ == spec_command_line_arguments(strings_view(args@)),
{
    let ghost av = strings_view(args@);
    let ghost quoted = av.map_values(|a: Seq<char>| spec_quote_windows_argument(a));
    let mut out: Vec<char> = Vec::new();
    let mut i: usize = 0;
    while i < args.len()
        invariant
            i <= args@.len(),
            av == strings_view(args@),
            quoted == av.map_values(|a: Seq<char>| spec_quote_windows_argument(a)),
            out@ == join(quoted.take(i as int), seq![' ']),
        decreases args@.len() - i,
    {
        let q = quote_windows_argument(args[i].as_str());
        assert(quoted.take(i + 1).drop_last() =~= quoted.take(i as int));
        assert(quoted.take(i + 1).last() == q@);
        if i > 0 {
            out.push(' ');
        } else {
            assert(quoted.take(1)[0] == q@);
        }
        push_all(&mut out, chars_of(q.as_str()).as_slice());
        i = i + 1;
    }
    assert(quoted.take(args@.len() as int) =~= quoted);
    string_of(out.as_slice())
}

/// The launcher's command-line arguments, as strings.
pub fn parse_extra_args(args: &[&str]) -> (r: Vec<String>)
    ensures
        r@.len() == args@.len(),
        forall|i: int| 0 <= i < args@.len() ==> (#[trigger] r@[i])@ == args@[i]@,
{
    let mut r: Vec<String> = Vec::new();
    let mut i: usize = 0;
    while i < args.len()
        invariant
            i <= args@.len(),
            r@.len() == i,
            forall|k: int| 0 <= k < i ==> (#[trigger] r@[k])@ == args@[k]@,
        decreases args@.len() - i,
    {
        r.push(String::from_str(args[i]));
        i = i + 1;
    }
    r
}


/// With the plugin unlock on, the manager owns Codex's debugging port: none
/// of the user arguments passed on is blank or a debugging switch.
pub proof fn law_plugin_args_filtered(args: Seq<Seq<char>>)
    ensures
        forall|k: int|
            0 <= k < passed_extra_args(args, true).len() ==> {
                let a = #[trigger] passed_extra_args(args, true)[k];
                &&& trim(a).len() > 0
                &&& !spec_is_remote_debug_arg(a)
            },
    decreases args.len(),
{
    if args.len() > 0 {
        let d = args.drop_last();
        law_plugin_args_filtered(d);
        let r = passed_extra_args(args, true);
        let p = passed_extra_args(d, true);
        assert forall|k: int| 0 <= k < r.len() implies {
            let a = #[trigger] r[k];
            &&& trim(a).len() > 0
            &&& !spec_is_remote_debug_arg(a)
        } by {
            if k < p.len() {
                assert(r[k] == p[k]);
            }
        }
    }
}


/// How a Windows program reads its command line, one character at a time:
/// the text read so far, the backslashes not yet resolved, and whether the
/// argument's closing quote has been read.  Inside quotes, `2n` backslashes
/// and a quote give `n` backslashes and close the argument; `2n + 1`
/// backslashes and a quote give `n` backslashes and a quote; backslashes
/// before any other character stay as they are.
pub open spec fn read_step(st: (Seq<char>, nat, bool), c: char) -> (Seq<char>, nat, bool) {
    let (text, pending, closed) = st;
    if closed {
        st
    } else if c == '\\' {
        (text, pending + 1, false)
    } else if c == '"' {
        if pending % 2 == 1 {
            (text + backslashes(((pending - 1) / 2) as nat) + seq!['"'], 0, false)
        } else {
            (text + backslashes(pending / 2), 0, true)
        }
    } else {
        (text + backslashes(pending) + seq![c], 0, false)
    }
}

/// The reading state after the characters `t`, from `st`.
pub open spec fn read_from(st: (Seq<char>, nat, bool), t: Seq<char>) -> (Seq<char>, nat, bool)
    decreases t.len(),
{
    if t.len() == 0 {
        st
    } else {
        read_step(read_from(st, t.drop_last()), t.last())
    }
}

/// The reading state after the characters `t`.
pub open spec fn read_state(t: Seq<char>) -> (Seq<char>, nat, bool) {
    read_from((seq![], 0, false), t)
}

proof fn lemma_read_append(st: (Seq<char>, nat, bool), t: Seq<char>, u: Seq<char>)
    ensures
        read_from(st, t + u) == read_from(read_from(st, t), u),
    decreases u.len(),
{
    if u.len() == 0 {
        assert(t + u =~= t);
    } else {
        lemma_read_append(st, t, u.drop_last());
        assert((t + u).drop_last() =~= t + u.drop_last());
        assert((t + u).last() == u.last());
    }
}

proof fn lemma_read_one(st: (Seq<char>, nat, bool), c: char)
    ensures
        read_from(st, seq![c]) == read_step(st, c),
{
    assert(seq![c].drop_last() =~= Seq::<char>::empty());
    assert(read_from(st, Seq::<char>::empty()) == st);
}

proof fn lemma_read_backslashes(text: Seq<char>, k: nat)
    ensures
        read_from((text, 0, false), backslashes(k)) == (text, k, false),
    decreases k,
{
    if k > 0 {
        lemma_read_backslashes(text, (k - 1) as nat);
        assert(backslashes(k).drop_last() =~= backslashes((k - 1) as nat));
    }
}

#[verifier::spinoff_prover]
#[verifier::rlimit(40)]
proof fn lemma_quote_state_reads(a: Seq<char>)
    ensures
        ({
            let (out, p) = quote_state(a);
            &&& p <= a.len()
            &&& out.len() + p >= a.len()
            &&& read_state(out) == (a.take(a.len() - p), 0nat, false)
            &&& a.skip(a.len() - p) == backslashes(p)
        }),
    decreases a.len(),
{
    if a.len() == 0 {
        assert(a.take(0) =~= seq![]);
        assert(a.skip(0) =~= backslashes(0));
    } else {
        let d = a.drop_last();
        let c = a.last();
        lemma_quote_state_reads(d);
        let (out0, p0) = quote_state(d);
        let w = d.take(d.len() - p0);
        assert(d =~= w + backslashes(p0)) by {
            assert(d.skip(d.len() - p0) == backslashes(p0));
            assert(d =~= d.take(d.len() - p0) + d.skip(d.len() - p0));
        }
        if c == '\\' {
            assert(a.take(a.len() - (p0 + 1)) =~= w);
            assert forall|k: int| 0 <= k < p0 + 1 implies #[trigger] a.skip(a.len() - (p0 + 1))[k]
                == '\\' by {
                if k < p0 {
                    assert(d.skip(d.len() - p0)[k] == backslashes(p0)[k]);
                    assert(a.skip(a.len() - (p0 + 1))[k] == d.skip(d.len() - p0)[k]);
                }
            }
            assert(a.skip(a.len() - (p0 + 1)) =~= backslashes(p0 + 1));
        } else if c == '"' {
            let bs = backslashes(2 * p0 + 1);
            lemma_read_append((seq![], 0, false), out0, bs);
            lemma_read_backslashes(w, 2 * p0 + 1);
            lemma_read_append((seq![], 0, false), out0 + bs, seq!['"']);
            lemma_read_one(read_state(out0 + bs), '"');
            assert(w + backslashes(((2 * p0 + 1 - 1) / 2) as nat) + seq!['"'] =~= a);
            assert(a.take(a.len() - 0) =~= a);
            assert(a.skip(a.len() - 0) =~= backslashes(0));
        } else {
            let bs = backslashes(p0);
            lemma_read_append((seq![], 0, false), out0, bs);
            lemma_read_backslashes(w, p0);
            lemma_read_append((seq![], 0, false), out0 + bs, seq![c]);
            lemma_read_one(read_state(out0 + bs), c);
            assert(w + backslashes(p0) + seq![c] =~= a);
            assert(a.take(a.len() - 0) =~= a);
            assert(a.skip(a.len() - 0) =~= backslashes(0));
        }
    }
}

proof fn lemma_plain_reads(a: Seq<char>)
    requires
        forall|i: int| 0 <= i < a.len() ==> !needs_quotes_char(#[trigger] a[i]),
    ensures
        !read_state(a).2,
        read_state(a).0 + backslashes(read_state(a).1) == a,
    decreases a.len(),
{
    if a.len() > 0 {
        let d = a.drop_last();
        lemma_plain_reads(d);
        let (v, p, cl) = read_state(d);
        assert(!needs_quotes_char(a[a.len() - 1]));
        if a.last() == '\\' {
            assert(v + backslashes(p + 1) =~= (v + backslashes(p)).push('\\'));
        } else {
            assert(v + backslashes(p) + seq![a.last()] + backslashes(0) =~= d.push(a.last()));
        }
        assert(d.push(a.last()) =~= a);
    } else {
        assert(read_state(a).0 + backslashes(0) =~= a);
    }
}

/// Every argument reaches Codex unchanged: read back by the Windows rules,
/// a quoted argument gives the argument itself and closes with its last
/// character; an argument left unquoted holds no space, tab or quote and
/// reads as itself.
pub proof fn law_quoted_argument_reads_back(a: Seq<char>)
    ensures
        ({
            let q = spec_quote_windows_argument(a);
            if q == a {
                &&& forall|i: int| 0 <= i < a.len() ==> !needs_quotes_char(#[trigger] a[i])
                &&& !read_state(a).2
                &&& read_state(a).0 + backslashes(read_state(a).1) == a
            } else {
                &&& q.len() >= 2
                &&& q[0] == '"'
                &&& read_state(q.drop_first()) == (a, 0nat, true)
                &&& !read_state(q.drop_first().drop_last()).2
            }
        }),
{
    let q = spec_quote_windows_argument(a);
    if a.len() > 0 && forall|i: int| 0 <= i < a.len() ==> !needs_quotes_char(#[trigger] a[i]) {
        lemma_plain_reads(a);
    } else {
        lemma_quoted_reads(a);
        lemma_quote_state_reads(a);
        let (out, p) = quote_state(a);
        assert(q == seq!['"'] + out + backslashes(2 * p) + seq!['"']);
        assert(q.len() > a.len());
        assert(q[0] == '"');
    }
}

proof fn lemma_quoted_reads(a: Seq<char>)
    ensures
        ({
            let (out, p) = quote_state(a);
            let q = seq!['"'] + out + backslashes(2 * p) + seq!['"'];
            &&& read_state(q.drop_first()) == (a, 0nat, true)
            &&& !read_state(q.drop_first().drop_last()).2
        }),
{
    lemma_quote_state_reads(a);
    let (out, p) = quote_state(a);
    let q = seq!['"'] + out + backslashes(2 * p) + seq!['"'];
    let w = a.take(a.len() - p);
    assert(a =~= w + backslashes(p)) by {
        assert(a =~= a.take(a.len() - p) + a.skip(a.len() - p));
    }
    let body = out + backslashes(2 * p);
    assert(q.drop_first() =~= body + seq!['"']);
    assert(q.drop_first().drop_last() =~= body);
    lemma_read_append((seq![], 0, false), out, backslashes(2 * p));
    lemma_read_backslashes(w, 2 * p);
    lemma_read_append((seq![], 0, false), body, seq!['"']);
    lemma_read_one(read_state(body), '"');
    assert(w + backslashes(((2 * p) / 2) as nat) =~= a);
}

} // verus!
