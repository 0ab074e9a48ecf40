//! The per-connection protocol state: authentication, transactions, and
//! the commands that concern the connection rather than the store.
//!
//! `Session::step` takes one command's words and decides what the
//! connection does next; the caller performs the returned `Step` (writing a
//! reply, running commands against the store, closing) and feeds the next
//! command in.
use vstd::prelude::*;
use crate::resp::{
    bulk_reply, crlf, err_reply, ok_reply, ok_string, resp_bulk, resp_empty_array, resp_err, resp_queued,
    resp_simple, simple_reply,
};
use crate::seqs::string_seq;
use crate::text::{decimal, push_str, str_eq, to_uppercase, u64_to_string, upper_case, usize_to_string};

verus! {

/// The state of one connection.
pub struct Session {
    pub authenticated: bool,
    pub in_tx: bool,
    /// The commands queued since MULTI, each as its words.
    pub queue: Vec<Vec<String>>,
}

/// The model of a session.
pub struct SessionView {
    pub authenticated: bool,
    pub in_tx: bool,
    pub queue: Seq<Seq<Seq<char>>>,
}

/// The words of each queued command.
pub open spec fn queue_view(q: Seq<Vec<String>>) -> Seq<Seq<Seq<char>>> {
    q.map_values(|p: Vec<String>| string_seq(p@))
}

impl View for Session {
    type V = SessionView;

    open spec fn view(&self) -> SessionView {
        SessionView { authenticated: self.authenticated, in_tx: self.in_tx, queue: queue_view(self.queue@) }
    }
}

/// What the connection does after a command.
pub enum Step {
    /// Send the reply.
    Reply(String),
    /// Send the reply, then close the connection.
    Close(String),
    /// Run the command (its upper-cased name, then its words) against the
    /// store and send the reply.
    Run(String, Vec<String>),
    /// Send the header, then run each command against the store in turn and
    /// send each reply.
    RunAll(String, Vec<(String, Vec<String>)>),
    /// Send the server report.
    Info,
}

/// The model of a step.
pub enum StepView {
    Reply(Seq<char>),
    Close(Seq<char>),
    Run(Seq<char>, Seq<Seq<char>>),
    RunAll(Seq<char>, Seq<(Seq<char>, Seq<Seq<char>>)>),
    Info,
}

/// The names and words of commands to run.
pub open spec fn batch_view(b: Seq<(String, Vec<String>)>) -> Seq<(Seq<char>, Seq<Seq<char>>)> {
    b.map_values(|c: (String, Vec<String>)| (c.0@, string_seq(c.1@)))
}

impl View for Step {
    type V = StepView;

    open spec fn view(&self) -> StepView {
        match self {
            Step::Reply(r) => StepView::Reply(r@),
            Step::Close(r) => StepView::Close(r@),
            Step::Run(c, p) => StepView::Run(c@, string_seq(p@)),
            Step::RunAll(h, b) => StepView::RunAll(h@, batch_view(b@)),
            Step::Info => StepView::Info,
        }
    }
}

/// The queued commands with their upper-cased names, as EXEC runs them.
pub open spec fn named_batch(q: Seq<Seq<Seq<char>>>) -> Seq<(Seq<char>, Seq<Seq<char>>)> {
    q.map_values(|p: Seq<Seq<char>>| (upper_case(p[0]), p))
}

/// Words joined by single spaces.
pub open spec fn join_words(ws: Seq<Seq<char>>) -> Seq<char>
    decreases ws.len(),
{
    if ws.len() == 0 {
        Seq::empty()
    } else if ws.len() == 1 {
        ws[0]
    } else {
        join_words(ws.drop_last()) + " "@ + ws.last()
    }
}

/// The reply to a command sent before authenticating.
pub open spec fn noauth_reply() -> Seq<char> {
    "-NOAUTH Authentication required.\r\n"@
}

/// The reply to a wrong password.
pub open spec fn wrongpass_reply() -> Seq<char> {
    "-WRONGPASS invalid username-password pair or user is disabled.\r\n"@
}

/// What a session does with command `ps` (its first word is the command's
/// name, in any case), given the server password: the next session state
/// and the step.
pub open spec fn session_next(s: SessionView, ps: Seq<Seq<char>>, password: Seq<char>) -> (SessionView, StepView) {
    let cmd = upper_case(ps[0]);
    if !s.authenticated && cmd != "AUTH"@ && cmd != "QUIT"@ {
        (s, StepView::Reply(noauth_reply()))
    } else if s.in_tx && !(cmd == "EXEC"@ || cmd == "DISCARD"@ || cmd == "MULTI"@ || cmd == "QUIT"@) {
        (SessionView { queue: s.queue.push(ps), ..s }, StepView::Reply("+QUEUED\r\n"@))
    } else if cmd == "AUTH"@ {
        if ps.len() != 2 {
            (s, StepView::Reply(err_reply("wrong number of arguments for 'auth' command"@)))
        } else if ps[1] == password {
            (SessionView { authenticated: true, ..s }, StepView::Reply(ok_reply()))
        } else {
            (s, StepView::Reply(wrongpass_reply()))
        }
    } else if cmd == "QUIT"@ {
        (s, StepView::Close(ok_reply()))
    } else if cmd == "MULTI"@ {
        if s.in_tx {
            (s, StepView::Reply(err_reply("MULTI calls can not be nested"@)))
        } else {
            (SessionView { in_tx: true, queue: Seq::empty(), ..s }, StepView::Reply(ok_reply()))
        }
    } else if cmd == "DISCARD"@ {
        if !s.in_tx {
            (s, StepView::Reply(err_reply("DISCARD without MULTI"@)))
        } else {
            (SessionView { in_tx: false, queue: Seq::empty(), ..s }, StepView::Reply(ok_reply()))
        }
    } else if cmd == "EXEC"@ {
        if !s.in_tx {
            (s, StepView::Reply(err_reply("EXEC without MULTI"@)))
        } else {
            (
                SessionView { in_tx: false, queue: Seq::empty(), ..s },
                StepView::RunAll(seq!['*'] + decimal(s.queue.len() as int) + crlf(), named_batch(s.queue)),
            )
        }
    } else if cmd == "PING"@ {
        if ps.len() >= 2 {
            (s, StepView::Reply(bulk_reply(join_words(ps.skip(1)))))
        } else {
            (s, StepView::Reply("+PONG\r\n"@))
        }
    } else if cmd == "INFO"@ {
        (s, StepView::Info)
    } else if cmd == "SELECT"@ {
        if ps.len() >= 2 && ps[1] == "0"@ {
            (s, StepView::Reply(ok_reply()))
        } else {
            (s, StepView::Reply(err_reply("DB index is out of range"@)))
        }
    } else if cmd == "COMMAND"@ {
        (s, StepView::Reply("*0\r\n"@))
    } else if cmd == "CONFIG"@ && ps.len() >= 2 && upper_case(ps[1]) == "GET"@ {
        (s, StepView::Reply("*0\r\n"@))
    } else if cmd == "OBJECT"@ {
        (s, StepView::Reply(bulk_reply("embstr"@)))
    } else if cmd == "CLIENT"@ {
        (s, StepView::Reply(ok_reply()))
    } else if cmd == "RESET"@ {
        (s, StepView::Reply(simple_reply("RESET"@)))
    } else {
        (s, StepView::Run(cmd, ps))
    }
}

/// Every queued command has a name.
pub open spec fn queue_wf(q: Seq<Seq<Seq<char>>>) -> bool {
    forall|i: int| 0 <= i < q.len() ==> (#[trigger] q[i]).len() >= 1
}

/// Words joined by single spaces.
fn join(words: &[String]) -> (r: String)
    ensures
        r@ == join_words(string_seq(words@)),
{
    let ghost ws = string_seq(words@);
    let mut out = String::new();
    let mut i: usize = 0;
    assert(ws.take(0) =~= Seq::<Seq<char>>::empty());
    while i < words.len()
        invariant
            i <= words@.len(),
            ws == string_seq(words@),
            out@ == join_words(ws.take(i as int)),
        decreases words@.len() - i,
    {
        if i > 0 {
            push_str(&mut out, " ");
        }
        push_str(&mut out, words[i].as_str());
        assert(ws.take(i + 1).drop_last() =~= ws.take(i as int));
        assert(ws.take(i + 1).last() == ws[i as int]);
        if i == 0 {
            assert(out@ =~= ws.take(1)[0]);
        }
        i = i + 1;
    }
    assert(ws.take(words@.len() as int) =~= ws);
    out
}

impl Session {
    /// A fresh connection: authenticated from the start when the server has
    /// no password.
    pub fn new(password: &str) -> (s: Session)
        ensures
            s@.authenticated == (password@.len() == 0),
            !s@.in_tx,
            s@.queue == Seq::<Seq<Seq<char>>>::empty(),
    {
        let s = Session { authenticated: password.is_empty(), in_tx: false, queue: Vec::new() };
        assert(queue_view(s.queue@) =~= Seq::<Seq<Seq<char>>>::empty());
        s
    }

    /// Takes the queued commands, naming each by its upper-cased first word.
    fn take_batch(&mut self) -> (b: Vec<(String, Vec<String>)>)
        requires
            queue_wf(old(self)@.queue),
        ensures
            batch_view(b@) == named_batch(old(self)@.queue),
            final(self).queue@.len() == 0,
            final(self).authenticated == old(self).authenticated,
            final(self).in_tx == old(self).in_tx,
    {
        let mut q: Vec<Vec<String>> = Vec::new();
        std::mem::swap(&mut q, &mut self.queue);
        let ghost qv = queue_view(q@);
        let mut out: Vec<(String, Vec<String>)> = Vec::new();
        let mut i: usize = 0;
        while i < q.len()
            invariant
                i <= q@.len(),
                qv == queue_view(q@),
                queue_wf(qv),
                out@.len() == i,
                forall|j: int| 0 <= j < i ==> (#[trigger] batch_view(out@)[j]) == named_batch(qv)[j],
            decreases q@.len() - i,
        {
            assert(qv[i as int].len() >= 1);
            assert(q@[i as int]@.len() >= 1);
            assert(qv[i as int][0] == q@[i as int]@[0]@);
            let name = to_uppercase(q[i][0].as_str());
            let ghost pre = out@;
            out.push((name, q[i].clone()));
            assert forall|j: int| 0 <= j < i + 1 implies (#[trigger] batch_view(out@)[j]) == named_batch(qv)[j] by {
                if j < i {
                    assert(out@[j] == pre[j]);
                    assert(batch_view(pre)[j] == named_batch(qv)[j]);
                }
            }
            i = i + 1;
        }
        assert(batch_view(out@) =~= named_batch(qv));
        out
    }

    /// Decides what the connection does with one command, given the server
    /// password.
    pub fn step(&mut self, parts: Vec<String>, password: &str) -> (a: Step)
        requires
            parts@.len() >= 1,
            queue_wf(old(self)@.queue),
        ensures
            (final(self)@, a@) == session_next(old(self)@, string_seq(parts@), password@),
            queue_wf(final(self)@.queue),
    {
        let ghost ps = string_seq(parts@);
        assert(ps[0] == parts@[0]@);
        let cmd = to_uppercase(parts[0].as_str());
        let c = cmd.as_str();
        if !self.authenticated && !str_eq(c, "AUTH") && !str_eq(c, "QUIT") {
            return Step::Reply("-NOAUTH Authentication required.\r\n".to_owned());
        }
        if self.in_tx && !(str_eq(c, "EXEC") || str_eq(c, "DISCARD") || str_eq(c, "MULTI") || str_eq(c, "QUIT")) {
            let ghost q0 = self.queue@;
            self.queue.push(parts);
            assert(queue_view(self.queue@) =~= queue_view(q0).push(ps));
            return Step::Reply(resp_queued().to_owned());
        }
        if str_eq(c, "AUTH") {
            if parts.len() != 2 {
                Step::Reply(resp_err("wrong number of arguments for 'auth' command"))
            } else {
                assert(ps[1] == parts@[1]@);
                if str_eq(parts[1].as_str(), password) {
                    self.authenticated = true;
                    Step::Reply(ok_string())
                } else {
                    Step::Reply("-WRONGPASS invalid username-password pair or user is disabled.\r\n".to_owned())
                }
            }
        } else if str_eq(c, "QUIT") {
            Step::Close(ok_string())
        } else if str_eq(c, "MULTI") {
            if self.in_tx {
                Step::Reply(resp_err("MULTI calls can not be nested"))
            } else {
                self.in_tx = true;
                self.queue.clear();
                assert(queue_view(self.queue@) =~= Seq::<Seq<Seq<char>>>::empty());
                Step::Reply(ok_string())
            }
        } else if str_eq(c, "DISCARD") {
            if !self.in_tx {
                Step::Reply(resp_err("DISCARD without MULTI"))
            } else {
                self.in_tx = false;
                self.queue.clear();
                assert(queue_view(self.queue@) =~= Seq::<Seq<Seq<char>>>::empty());
                Step::Reply(ok_string())
            }
        } else if str_eq(c, "EXEC") {
            if !self.in_tx {
                Step::Reply(resp_err("EXEC without MULTI"))
            } else {
                self.in_tx = false;
                let n = self.queue.len();
                let batch = self.take_batch();
                assert(queue_view(self.queue@) =~= Seq::<Seq<Seq<char>>>::empty());
                let mut header = "*".to_owned();
                push_str(&mut header, usize_to_string(n).as_str());
                push_str(&mut header, "\r\n");
                proof {
                    reveal_strlit("*");
                    reveal_strlit("\r\n");
                }
                assert(header@ =~= seq!['*'] + decimal(n as int) + crlf());
                Step::RunAll(header, batch)
            }
        } else if str_eq(c, "PING") {
            if parts.len() >= 2 {
                let words = vstd::slice::slice_subrange(parts.as_slice(), 1, parts.len());
                assert(string_seq(words@) =~= ps.skip(1));
                Step::Reply(resp_bulk(join(words).as_str()))
            } else {
                Step::Reply("+PONG\r\n".to_owned())
            }
        } else if str_eq(c, "INFO") {
            Step::Info
        } else if str_eq(c, "SELECT") {
            if parts.len() >= 2 && str_eq(parts[1].as_str(), "0") {
                assert(ps[1] == parts@[1]@);
                Step::Reply(ok_string())
            } else {
                proof {
                    if parts@.len() >= 2 {
                        assert(ps[1] == parts@[1]@);
                    }
                }
                Step::Reply(resp_err("DB index is out of range"))
            }
        } else if str_eq(c, "COMMAND") {
            Step::Reply(resp_empty_array().to_owned())
        } else if str_eq(c, "CONFIG") && parts.len() >= 2 && str_eq(to_uppercase(parts[1].as_str()).as_str(), "GET") {
            assert(ps[1] == parts@[1]@);
            Step::Reply(resp_empty_array().to_owned())
        } else if str_eq(c, "OBJECT") {
            Step::Reply(resp_bulk("embstr"))
        } else if str_eq(c, "CLIENT") {
            Step::Reply(ok_string())
        } else if str_eq(c, "RESET") {
            Step::Reply(resp_simple("RESET"))
        } else {
            proof {
                if parts@.len() >= 2 {
                    assert(ps[1] == parts@[1]@);
                }
            }
            Step::Run(cmd, parts)
        }
    }
}

/// The body of the server report.
pub open spec fn info_body(uptime_secs: int, connections: int, commands: int, keys: int) -> Seq<char> {
    "# Server\r\nredis_version:7.0.0-kivo\r\nredis_mode:standalone\r\nnos:rust\r\narch_bits:64\r\nuptime_in_seconds:"@
        + decimal(uptime_secs) + "\r\n\r\n# Clients\r\ntotal_connections_received:"@ + decimal(connections)
        + "\r\n\r\n# Stats\r\ntotal_commands_processed:"@ + decimal(commands) + "\r\n\r\n# Keyspace\r\ndb0:keys="@
        + decimal(keys) + ",expires=0,avg_ttl=0\r\n"@
}

/// The INFO reply: how long the server has run, how many connections and
/// commands it has taken, and how many live keys it holds.
pub fn build_info(uptime_secs: u64, connections: u64, commands: u64, keys: usize) -> (r: String)
    ensures
        r@ == bulk_reply(info_body(uptime_secs as int, connections as int, commands as int, keys as int)),
{
    let mut body = "# Server\r\nredis_version:7.0.0-kivo\r\nredis_mode:standalone\r\nnos:rust\r\narch_bits:64\r\nuptime_in_seconds:".to_owned();
    push_str(&mut body, u64_to_string(uptime_secs).as_str());
    push_str(&mut body, "\r\n\r\n# Clients\r\ntotal_connections_received:");
    push_str(&mut body, u64_to_string(connections).as_str());
    push_str(&mut body, "\r\n\r\n# Stats\r\ntotal_commands_processed:");
    push_str(&mut body, u64_to_string(commands).as_str());
    push_str(&mut body, "\r\n\r\n# Keyspace\r\ndb0:keys=");
    push_str(&mut body, usize_to_string(keys).as_str());
    push_str(&mut body, ",expires=0,avg_ttl=0\r\n");
    resp_bulk(body.as_str())
}

} // verus!
