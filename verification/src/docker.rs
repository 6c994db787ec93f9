//! What the lab asks of Docker, as plain values: container settings, image
//! references, and the line splitting of followed container logs.

use vstd::prelude::*;

use crate::text::{
    chars_of, decimal, pair_views, push_str, rsplit_once_char, rsplit_once_spec, split_once_char,
    split_once_spec, split_scan, split_scan_exec, string_from_chars, u64_to_string, views,
};

verus! {

/// Settings for one container run.
pub struct ContainerConfig {
    pub image: String,
    pub hostname: Option<String>,
    pub network: Option<String>,
    pub env: Vec<(String, String)>,
    pub binds: Vec<String>,
    pub publish_ports: Vec<(u16, u16)>,
    /// Command to run in the container. Empty uses the image's default
    /// CMD/ENTRYPOINT; non-empty overrides the CMD (appended to ENTRYPOINT).
    pub cmd: Vec<String>,
    pub docker_args: Vec<String>,
}

/// `KEY=VALUE`, as Docker takes an environment variable.
pub open spec fn env_assignment_spec(key: Seq<char>, value: Seq<char>) -> Seq<char> {
    key + seq!['='] + value
}

pub fn env_assignment(key: &str, value: &str) -> (r: String)
    ensures
        r@ == env_assignment_spec(key@, value@),
{
    let mut v = chars_of(key);
    v.push('=');
    push_str(&mut v, value);
    string_from_chars(v.as_slice())
}

/// The `KEY=VALUE` strings for a container's environment, in order.
pub fn env_assignments(env: &Vec<(String, String)>) -> (r: Vec<String>)
    ensures
        r@.len() == env@.len(),
        forall|i: int|
            0 <= i < env@.len() ==> #[trigger] r@[i]@ == env_assignment_spec(env@[i].0@, env@[i].1@),
{
    let mut r: Vec<String> = Vec::new();
    let mut i: usize = 0;
    while i < env.len()
        invariant
            i <= env@.len(),
            r@.len() == i,
            forall|k: int|
                0 <= k < i ==> #[trigger] r@[k]@ == env_assignment_spec(env@[k].0@, env@[k].1@),
        decreases env.len() - i,
    {
        let a = env_assignment(env[i].0.as_str(), env[i].1.as_str());
        r.push(a);
        i = i + 1;
    }
    r
}

/// A `KEY=VALUE` entry of a case file split at its first `=`; an entry
/// without `=` is all key and an empty value (`splitn(2, '=')`).
pub open spec fn split_env_spec(e: Seq<char>) -> (Seq<char>, Seq<char>) {
    match split_once_spec(e, '=') {
        Some((k, v)) => (k, v),
        None => (e, Seq::empty()),
    }
}

pub fn split_env(e: &str) -> (r: (String, String))
    ensures
        (r.0@, r.1@) == split_env_spec(e@),
{
    let c = chars_of(e);
    match split_once_char(c.as_slice(), '=') {
        Some((k, v)) => (string_from_chars(k.as_slice()), string_from_chars(v.as_slice())),
        None => (e.to_owned(), String::new()),
    }
}

/// Every `KEY=VALUE` entry split at its first `=`, in order.
pub fn env_pairs(entries: &Vec<String>) -> (r: Vec<(String, String)>)
    ensures
        r@.len() == entries@.len(),
        forall|i: int|
            0 <= i < entries@.len() ==> (#[trigger] r@[i].0@, r@[i].1@) == split_env_spec(
                entries@[i]@,
            ),
{
    let mut r: Vec<(String, String)> = Vec::new();
    let mut i: usize = 0;
    while i < entries.len()
        invariant
            i <= entries@.len(),
            r@.len() == i,
            forall|k: int|
                0 <= k < i ==> (#[trigger] r@[k].0@, r@[k].1@) == split_env_spec(entries@[k]@),
        decreases entries.len() - i,
    {
        let p = split_env(entries[i].as_str());
        r.push(p);
        i = i + 1;
    }
    r
}

/// An assignment built from a key without `=` splits back into its key and
/// value.
pub proof fn law_env_roundtrip(key: Seq<char>, value: Seq<char>)
    requires
        !key.contains('='),
    ensures
        split_env_spec(env_assignment_spec(key, value)) == (key, value),
{
    let e = env_assignment_spec(key, value);
    let i = key.len() as int;
    assert(e.take(i) =~= key);
    assert(e.skip(i + 1) =~= value);
    crate::text::lemma_split_once_at(e, '=', i);
}

/// The image and tag a pull asks for: split at the last `:`, the tag
/// defaulting to `latest` (`rsplit_once(':')`).
pub open spec fn image_ref_spec(name: Seq<char>) -> (Seq<char>, Seq<char>) {
    match rsplit_once_spec(name, ':') {
        Some((i, t)) => (i, t),
        None => (name, "latest"@),
    }
}

pub fn split_image_ref(name: &str) -> (r: (String, String))
    ensures
        (r.0@, r.1@) == image_ref_spec(name@),
{
    let c = chars_of(name);
    match rsplit_once_char(c.as_slice(), ':') {
        Some((i, t)) => (string_from_chars(i.as_slice()), string_from_chars(t.as_slice())),
        None => (name.to_owned(), "latest".to_owned()),
    }
}

/// Docker's key for a published container port: `<port>/tcp`.
pub fn port_key(container_port: u16) -> (r: String)
    ensures
        r@ == decimal(container_port as nat) + "/tcp"@,
{
    let mut v = chars_of(u64_to_string(container_port as u64).as_str());
    push_str(&mut v, "/tcp");
    string_from_chars(v.as_slice())
}

/// What a container run hands to Docker, as plain values. `None` stands
/// for a setting left to Docker's default.
pub struct ContainerRequest {
    pub image: String,
    /// The container's name: its hostname, when it has one.
    pub name: Option<String>,
    pub hostname: Option<String>,
    /// `KEY=VALUE` entries.
    pub env: Option<Vec<String>>,
    pub cmd: Option<Vec<String>>,
    pub binds: Option<Vec<String>>,
    /// `(<container port>/tcp, host port)`, each bound on 127.0.0.1.
    pub ports: Option<Vec<(String, String)>>,
    /// The network to join after creation, with the hostname as alias.
    pub network: Option<String>,
    pub aliases: Option<Vec<String>>,
}

/// The request for a container run. The settings' `docker_args` are not
/// part of it: Docker is not given them.
pub fn container_request(config: &ContainerConfig) -> (r: ContainerRequest)
    ensures
        r.image@ == config.image@,
        r.name == config.hostname,
        r.hostname == config.hostname,
        r.network == config.network,
        match config.hostname {
            Some(h) => (r.aliases matches Some(a) && a@ == seq![h]),
            None => r.aliases is None,
        },
        match r.env {
            None => config.env@.len() == 0,
            Some(e) => config.env@.len() > 0 && e@.len() == config.env@.len() && forall|i: int|
                0 <= i < e@.len() ==> #[trigger] e@[i]@ == env_assignment_spec(
                    config.env@[i].0@,
                    config.env@[i].1@,
                ),
        },
        match r.cmd {
            None => config.cmd@.len() == 0,
            Some(c) => config.cmd@.len() > 0 && c@ == config.cmd@,
        },
        match r.binds {
            None => config.binds@.len() == 0,
            Some(b) => config.binds@.len() > 0 && b@ == config.binds@,
        },
        match r.ports {
            None => config.publish_ports@.len() == 0,
            Some(p) => config.publish_ports@.len() > 0 && p@.len() == config.publish_ports@.len()
                && forall|i: int|
                0 <= i < p@.len() ==> (#[trigger] p@[i]).0@ == decimal(
                    config.publish_ports@[i].1 as nat,
                ) + "/tcp"@ && p@[i].1@ == decimal(config.publish_ports@[i].0 as nat),
        },
{
    let env = if config.env.len() == 0 {
        None
    } else {
        Some(env_assignments(&config.env))
    };
    let cmd = if config.cmd.len() == 0 {
        None
    } else {
        Some(crate::text::copy_strings(&config.cmd))
    };
    let binds = if config.binds.len() == 0 {
        None
    } else {
        Some(crate::text::copy_strings(&config.binds))
    };
    let ports = if config.publish_ports.len() == 0 {
        None
    } else {
        let mut v: Vec<(String, String)> = Vec::new();
        let mut i: usize = 0;
        while i < config.publish_ports.len()
            invariant
                i <= config.publish_ports@.len(),
                v@.len() == i,
                forall|k: int|
                    0 <= k < i ==> (#[trigger] v@[k]).0@ == decimal(
                        config.publish_ports@[k].1 as nat,
                    ) + "/tcp"@ && v@[k].1@ == decimal(config.publish_ports@[k].0 as nat),
            decreases config.publish_ports.len() - i,
        {
            let (host, container) = config.publish_ports[i];
            let key = port_key(container);
            let hp = u64_to_string(host as u64);
            v.push((key, hp));
            i = i + 1;
        }
        Some(v)
    };
    let aliases = match &config.hostname {
        Some(h) => {
            let mut a: Vec<String> = Vec::new();
            a.push(h.clone());
            assert(a@ =~= seq![*h]);
            Some(a)
        },
        None => None,
    };
    ContainerRequest {
        image: config.image.clone(),
        name: crate::text::copy_opt(&config.hostname),
        hostname: crate::text::copy_opt(&config.hostname),
        env,
        cmd,
        binds,
        ports,
        network: crate::text::copy_opt(&config.network),
        aliases,
    }
}

// --- followed logs -----------------------------------------------------------

/// The lines `ls`, each followed by a line feed.
pub open spec fn join_terminated(ls: Seq<Seq<char>>) -> Seq<char>
    decreases ls.len(),
{
    if ls.len() == 0 {
        Seq::empty()
    } else {
        join_terminated(ls.drop_last()) + ls.last() + seq!['\n']
    }
}

proof fn lemma_split_scan_lines(t: Seq<char>)
    ensures
        join_terminated(split_scan(t, false).0) + split_scan(t, false).1 == t,
        !split_scan(t, false).1.contains('\n'),
        forall|i: int|
            0 <= i < split_scan(t, false).0.len() ==> !(#[trigger] split_scan(t, false).0[i]).contains(
                '\n',
            ),
    decreases t.len(),
{
    if t.len() > 0 {
        lemma_split_scan_lines(t.drop_last());
        let (done, cur) = split_scan(t.drop_last(), false);
        if t.last() == '\n' {
            assert(split_scan(t, false).0.drop_last() =~= done);
            assert(join_terminated(split_scan(t, false).0) + Seq::<char>::empty() =~= t);
        } else {
            assert(t.drop_last().push(t.last()) =~= t);
            assert((join_terminated(done) + cur).push(t.last()) =~= join_terminated(done)
                + cur.push(t.last()));
            assert(join_terminated(done) + cur.push(t.last()) =~= t);
            assert forall|k: int| 0 <= k < cur.push(t.last()).len() implies cur.push(
                t.last(),
            )[k] != '\n' by {
                if k < cur.len() {
                    assert(cur[k] != '\n');
                }
            }
        }
    } else {
        assert(join_terminated(Seq::<Seq<char>>::empty()) + Seq::<char>::empty() =~= t);
    }
}

/// Splits a followed log stream into complete lines. Chunks need not end at
/// line boundaries: a partial line is held until its line feed arrives.
pub struct LineBuffer {
    /// Everything received so far.
    acc: Vec<char>,
    /// The partial line not yet terminated.
    buf: Vec<char>,
    /// The lines handed out so far.
    emitted: Ghost<Seq<Seq<char>>>,
}

impl LineBuffer {
    /// Received text is exactly the lines handed out, each with its line
    /// feed, then the held partial line, which has no line feed.
    #[verifier::type_invariant]
    spec fn inv(&self) -> bool {
        &&& join_terminated(self.emitted@) + self.buf@ == self.acc@
        &&& !self.buf@.contains('\n')
    }

    /// The buffer's invariant, which every buffer keeps (see
    /// `law_received_is_lines_then_pending`).
    pub closed spec fn wf(&self) -> bool {
        self.inv()
    }

    pub closed spec fn received(&self) -> Seq<char> {
        self.acc@
    }

    pub closed spec fn pending(&self) -> Seq<char> {
        self.buf@
    }

    pub closed spec fn lines_out(&self) -> Seq<Seq<char>> {
        self.emitted@
    }

    /// Whatever chunks came in, the received text is the lines handed out,
    /// each with its line feed, followed by the held partial line, which has
    /// no line feed.
    pub proof fn law_received_is_lines_then_pending(&self)
        requires
            self.wf(),
        ensures
            join_terminated(self.lines_out()) + self.pending() == self.received(),
            !self.pending().contains('\n'),
    {
    }

    pub fn new() -> (r: LineBuffer)
        ensures
            r.wf(),
            r.received() == Seq::<char>::empty(),
            r.lines_out() == Seq::<Seq<char>>::empty(),
    {
        let r = LineBuffer { acc: Vec::new(), buf: Vec::new(), emitted: Ghost(Seq::empty()) };
        assert(join_terminated(Seq::<Seq<char>>::empty()) + r.buf@ =~= r.acc@);
        r
    }

    /// Takes in a chunk and returns the lines it completes, in order, without
    /// their line feeds.
    pub fn push(&mut self, chunk: &str) -> (lines: Vec<Vec<char>>)
        ensures
            final(self).wf(),
            final(self).received() == old(self).received() + chunk@,
            final(self).lines_out() == old(self).lines_out() + views(lines@),
            join_terminated(views(lines@)) + final(self).pending() == old(self).pending() + chunk@,
            forall|i: int| 0 <= i < lines@.len() ==> !(#[trigger] lines@[i]@).contains('\n'),
    {
        proof {
            use_type_invariant(&*self);
        }
        let c = chars_of(chunk);
        let mut text: Vec<char> = crate::text::copy_chars(self.buf.as_slice());
        let mut c2 = crate::text::copy_chars(c.as_slice());
        text.append(&mut c2);
        let mut acc = crate::text::copy_chars(self.acc.as_slice());
        let mut c3 = crate::text::copy_chars(c.as_slice());
        acc.append(&mut c3);
        let (done, cur) = split_scan_exec(text.as_slice(), false);
        let ghost old_acc = self.acc@;
        let ghost old_buf = self.buf@;
        let ghost old_emitted = self.emitted@;
        proof {
            assert(text@ =~= old_buf + chunk@);
            lemma_split_scan_lines(text@);
            lemma_join_terminated_add(old_emitted, views(done@));
            assert(acc@ =~= old_acc + chunk@);
            assert(acc@ =~= join_terminated(old_emitted) + (join_terminated(views(done@)) + cur@));
            assert(acc@ =~= join_terminated(old_emitted + views(done@)) + cur@);
            assert forall|i: int| 0 <= i < done@.len() implies !(#[trigger] done@[i]@).contains(
                '\n',
            ) by {
                assert(views(done@)[i] == done@[i]@);
            }
        }
        *self = LineBuffer { acc, buf: cur, emitted: Ghost(old_emitted + views(done@)) };
        done
    }

    /// Everything received so far.
    pub fn accumulated(&self) -> (r: String)
        ensures
            r@ == self.received(),
    {
        string_from_chars(self.acc.as_slice())
    }

    /// The trailing line without a final line feed, if any, once the stream
    /// has ended.
    pub fn finish(&self) -> (r: Option<Vec<char>>)
        ensures
            match r {
                Some(l) => l@ == self.pending() && l@.len() > 0,
                None => self.pending().len() == 0,
            },
    {
        if self.buf.len() > 0 {
            Some(crate::text::copy_chars(self.buf.as_slice()))
        } else {
            None
        }
    }
}

proof fn lemma_join_terminated_add(a: Seq<Seq<char>>, b: Seq<Seq<char>>)
    ensures
        join_terminated(a + b) == join_terminated(a) + join_terminated(b),
    decreases b.len(),
{
    if b.len() == 0 {
        assert(a + b =~= a);
        assert(join_terminated(a) + join_terminated(b) =~= join_terminated(a));
    } else {
        lemma_join_terminated_add(a, b.drop_last());
        assert((a + b).drop_last() =~= a + b.drop_last());
        assert(join_terminated(a + b) =~= join_terminated(a) + join_terminated(b));
    }
}

} // verus!
