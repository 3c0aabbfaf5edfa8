//! Where the standard streams of a child process come from and go to.

use vstd::prelude::*;

verus! {

/// What the child reads its input from.
#[derive(Clone, Copy, Debug, PartialEq, Eq, Structural)]
pub enum PandoraStdioWriteMode {
    /// Nothing.
    Null,
    /// What the parent reads from.
    Inherit,
    /// A pipe that the parent writes to.
    Pipe,
}

/// Where the child's output goes.
#[derive(Clone, Copy, Debug, PartialEq, Eq, Structural)]
pub enum PandoraStdioReadMode {
    /// A pipe that the parent reads from.
    Pipe,
    /// Nowhere.
    Null,
    /// Where the parent's output goes.
    Inherit,
}

/// A standard stream.
#[derive(Clone, Copy, Debug, PartialEq, Eq, Structural)]
pub enum Stream {
    Stdin,
    Stdout,
    Stderr,
}

/// Something to open before the child is started.
#[derive(Clone, Copy, Debug, PartialEq, Eq, Structural)]
pub enum OpenRequest {
    /// The null device, for reading and writing.
    Null,
    /// A pipe for one stream.
    Pipe(Stream),
}

/// What was opened.
#[derive(Clone, Copy, Debug, PartialEq, Eq, Structural)]
pub enum Opened {
    /// The null device.
    Null(i32),
    /// A pipe, by the descriptors of its two ends.
    Pipe { read: i32, write: i32 },
}

/// The modes of the three streams of a child.
#[derive(Clone, Copy, Debug, PartialEq, Eq, Structural)]
pub struct Streams {
    pub stdin: PandoraStdioWriteMode,
    pub stdout: PandoraStdioReadMode,
    pub stderr: PandoraStdioReadMode,
}

/// The descriptors of the three streams: the ends the child uses, and the ends
/// the parent keeps.
#[derive(Clone, Copy, Debug, PartialEq, Eq, Structural)]
pub struct Wiring {
    pub stdin_read: Option<i32>,
    pub stdout_write: Option<i32>,
    pub stderr_write: Option<i32>,
    pub stdin_write: Option<i32>,
    pub stdout_read: Option<i32>,
    pub stderr_read: Option<i32>,
}

/// The request is answered by something of its kind.
pub open spec fn answers(request: OpenRequest, opened: Opened) -> bool {
    (request is Null) == (opened is Null)
}

/// The first of `requests` are answered by `opened`.
pub open spec fn are_answered(requests: Seq<OpenRequest>, opened: Seq<Opened>) -> bool {
    &&& opened.len() <= requests.len()
    &&& forall|i: int| 0 <= i < opened.len() ==> answers(requests[i], #[trigger] opened[i])
}

/// The list with one more request, where it is needed and not there yet.
pub open spec fn with_request(list: Seq<OpenRequest>, need: Option<OpenRequest>) -> Seq<
    OpenRequest,
> {
    match need {
        Some(request) if !list.contains(request) => list.push(request),
        _ => list,
    }
}

/// The end of an opened thing that the child uses for `stream`.
pub open spec fn child_end(opened: Opened, stream: Stream) -> i32 {
    match opened {
        Opened::Null(fd) => fd,
        Opened::Pipe { read, write } => if stream is Stdin {
            read
        } else {
            write
        },
    }
}

/// The end of a pipe for `stream` that the parent keeps.
pub open spec fn parent_end(opened: Opened, stream: Stream) -> Option<i32> {
    match opened {
        Opened::Null(_) => None,
        Opened::Pipe { read, write } => if stream is Stdin {
            Some(write)
        } else {
            Some(read)
        },
    }
}

/// The descriptors of an opened thing.
pub open spec fn ends_of(opened: Opened) -> Seq<i32> {
    match opened {
        Opened::Null(fd) => seq![fd],
        Opened::Pipe { read, write } => seq![read, write],
    }
}

/// All the descriptors of what was opened, in that order.
pub open spec fn all_ends(opened: Seq<Opened>) -> Seq<i32>
    decreases opened.len(),
{
    if opened.len() == 0 {
        seq![]
    } else {
        all_ends(opened.drop_last()) + ends_of(opened.last())
    }
}

/// The end of an opened thing that only the child uses.
pub open spec fn used_end(request: OpenRequest, opened: Opened) -> i32 {
    match request {
        OpenRequest::Pipe(stream) => child_end(opened, stream),
        OpenRequest::Null => child_end(opened, Stream::Stdin),
    }
}

/// The ends that only the child uses, once for each thing that was opened.
pub open spec fn child_ends(requests: Seq<OpenRequest>, opened: Seq<Opened>) -> Seq<i32> {
    Seq::new(opened.len(), |i: int| used_end(requests[i], opened[i]))
}

impl Streams {
    /// What has to be opened for `stream`.
    pub open spec fn need(self, stream: Stream) -> Option<OpenRequest> {
        match stream {
            Stream::Stdin => match self.stdin {
                PandoraStdioWriteMode::Null => Some(OpenRequest::Null),
                PandoraStdioWriteMode::Inherit => None,
                PandoraStdioWriteMode::Pipe => Some(OpenRequest::Pipe(stream)),
            },
            Stream::Stdout => Self::output_need(self.stdout, stream),
            Stream::Stderr => Self::output_need(self.stderr, stream),
        }
    }

    /// What has to be opened for an output stream of the given mode.
    pub open spec fn output_need(mode: PandoraStdioReadMode, stream: Stream) -> Option<
        OpenRequest,
    > {
        match mode {
            PandoraStdioReadMode::Pipe => Some(OpenRequest::Pipe(stream)),
            PandoraStdioReadMode::Null => Some(OpenRequest::Null),
            PandoraStdioReadMode::Inherit => None,
        }
    }

    /// All that has to be opened, in order. The null device is opened at most
    /// once.
    pub open spec fn requests(self) -> Seq<OpenRequest> {
        with_request(
            with_request(
                with_request(seq![], self.need(Stream::Stdin)),
                self.need(Stream::Stdout),
            ),
            self.need(Stream::Stderr),
        )
    }

    /// What was opened for `stream`.
    pub open spec fn source(self, opened: Seq<Opened>, stream: Stream) -> Option<Opened> {
        match self.need(stream) {
            Some(request) => Some(opened[self.requests().index_of(request)]),
            None => None,
        }
    }

    /// The descriptor the child uses for `stream`.
    pub open spec fn for_child(self, opened: Seq<Opened>, stream: Stream) -> Option<i32> {
        match self.source(opened, stream) {
            Some(source) => Some(child_end(source, stream)),
            None => None,
        }
    }

    /// The descriptor the parent keeps for `stream`.
    pub open spec fn for_parent(self, opened: Seq<Opened>, stream: Stream) -> Option<i32> {
        match self.source(opened, stream) {
            Some(source) => parent_end(source, stream),
            None => None,
        }
    }

    /// All the descriptors, once everything has been opened.
    pub open spec fn wiring(self, opened: Seq<Opened>) -> Wiring {
        Wiring {
            stdin_read: self.for_child(opened, Stream::Stdin),
            stdout_write: self.for_child(opened, Stream::Stdout),
            stderr_write: self.for_child(opened, Stream::Stderr),
            stdin_write: self.for_parent(opened, Stream::Stdin),
            stdout_read: self.for_parent(opened, Stream::Stdout),
            stderr_read: self.for_parent(opened, Stream::Stderr),
        }
    }

    /// What has to be opened for `stream`.
    fn needed_for(&self, stream: Stream) -> (request: Option<OpenRequest>)
        ensures
            request == self.need(stream),
    {
        let mode = match stream {
            Stream::Stdin => match self.stdin {
                PandoraStdioWriteMode::Null => PandoraStdioReadMode::Null,
                PandoraStdioWriteMode::Inherit => PandoraStdioReadMode::Inherit,
                PandoraStdioWriteMode::Pipe => PandoraStdioReadMode::Pipe,
            },
            Stream::Stdout => self.stdout,
            Stream::Stderr => self.stderr,
        };
        match mode {
            PandoraStdioReadMode::Pipe => Some(OpenRequest::Pipe(stream)),
            PandoraStdioReadMode::Null => Some(OpenRequest::Null),
            PandoraStdioReadMode::Inherit => None,
        }
    }

    /// The index of `request` in the list, or the length of the list.
    fn index(list: &Vec<OpenRequest>, request: OpenRequest) -> (index: usize)
        ensures
            index <= list@.len(),
            index == list@.len() <==> !list@.contains(request),
            index < list@.len() ==> list@[index as int] == request,
    {
        let mut i: usize = 0;
        while i < list.len()
            invariant
                i <= list@.len(),
                forall|j: int| 0 <= j < i ==> list@[j] != request,
            decreases list@.len() - i,
        {
            if list[i] == request {
                assert(list@[i as int] == request);
                return i;
            }
            i += 1;
        }
        i
    }

    /// Adds a request, where it is needed and not there yet.
    fn add_request(list: &mut Vec<OpenRequest>, need: Option<OpenRequest>)
        ensures
            final(list)@ == with_request(old(list)@, need),
    {
        if let Some(request) = need {
            if Self::index(list, request) == list.len() {
                list.push(request);
            }
        }
    }

    /// All that has to be opened, in order: a pipe for each piped stream, and
    /// the null device once for all the streams that use it.
    pub fn open_requests(&self) -> (list: Vec<OpenRequest>)
        ensures
            list@ == self.requests(),
    {
        let mut list: Vec<OpenRequest> = Vec::new();
        assert(list@ =~= seq![]);
        Self::add_request(&mut list, self.needed_for(Stream::Stdin));
        Self::add_request(&mut list, self.needed_for(Stream::Stdout));
        Self::add_request(&mut list, self.needed_for(Stream::Stderr));
        list
    }

    /// What was opened for `stream`.
    fn find_source(&self, opened: &Vec<Opened>, stream: Stream) -> (source: Option<Opened>)
        requires
            opened@.len() == self.requests().len(),
        ensures
            source == self.source(opened@, stream),
    {
        proof {
            lemma_requests(*self);
        }
        match self.needed_for(stream) {
            Some(request) => {
                let list = self.open_requests();
                let index = Self::index(&list, request);
                assert(self.requests()[self.requests().index_of(request)] == request);
                Some(opened[index])
            },
            None => None,
        }
    }

    /// The end the child uses and the end the parent keeps for `stream`.
    fn ends(&self, opened: &Vec<Opened>, stream: Stream) -> (ends: (Option<i32>, Option<i32>))
        requires
            opened@.len() == self.requests().len(),
        ensures
            ends.0 == self.for_child(opened@, stream),
            ends.1 == self.for_parent(opened@, stream),
    {
        match self.find_source(opened, stream) {
            Some(Opened::Null(fd)) => (Some(fd), None),
            Some(Opened::Pipe { read, write }) => match stream {
                Stream::Stdin => (Some(read), Some(write)),
                _ => (Some(write), Some(read)),
            },
            None => (None, None),
        }
    }

    /// Gives each stream its descriptors, once everything has been opened.
    pub fn wire(&self, opened: &Vec<Opened>) -> (wiring: Wiring)
        requires
            opened@.len() == self.requests().len(),
        ensures
            wiring == self.wiring(opened@),
            self.stdin is Inherit <==> wiring.stdin_read is None,
            self.stdout is Inherit <==> wiring.stdout_write is None,
            self.stderr is Inherit <==> wiring.stderr_write is None,
            are_answered(self.requests(), opened@) ==> (wiring.stdin_write is Some <==> self.stdin
                is Pipe),
            are_answered(self.requests(), opened@) ==> (wiring.stdout_read is Some <==> self.stdout
                is Pipe),
            are_answered(self.requests(), opened@) ==> (wiring.stderr_read is Some <==> self.stderr
                is Pipe),
    {
        proof {
            if are_answered(self.requests(), opened@) {
                law_streams_follow_their_modes(*self, opened@);
            }
        }
        let (stdin_read, stdin_write) = self.ends(opened, Stream::Stdin);
        let (stdout_write, stdout_read) = self.ends(opened, Stream::Stdout);
        let (stderr_write, stderr_read) = self.ends(opened, Stream::Stderr);
        Wiring { stdin_read, stdout_write, stderr_write, stdin_write, stdout_read, stderr_read }
    }
}

/// All the descriptors of what was opened.
pub fn list_ends(opened: &Vec<Opened>) -> (fds: Vec<i32>)
    ensures
        fds@ == all_ends(opened@),
{
    let mut fds: Vec<i32> = Vec::new();
    assert(opened@.take(0) =~= seq![]);
    let mut i: usize = 0;
    while i < opened.len()
        invariant
            i <= opened@.len(),
            fds@ == all_ends(opened@.take(i as int)),
        decreases opened@.len() - i,
    {
        let ghost before = fds@;
        match opened[i] {
            Opened::Null(fd) => {
                fds.push(fd);
            },
            Opened::Pipe { read, write } => {
                fds.push(read);
                fds.push(write);
            },
        }
        assert(opened@.take(i + 1).drop_last() =~= opened@.take(i as int));
        assert(fds@ =~= before + ends_of(opened@[i as int]));
        i += 1;
    }
    assert(opened@.take(opened@.len() as int) =~= opened@);
    fds
}

/// The ends that only the child uses, once for each thing that was opened.
pub fn list_child_ends(requests: &Vec<OpenRequest>, opened: &Vec<Opened>) -> (fds: Vec<i32>)
    requires
        opened@.len() <= requests@.len(),
    ensures
        fds@ == child_ends(requests@, opened@),
{
    let mut fds: Vec<i32> = Vec::new();
    let mut i: usize = 0;
    while i < opened.len()
        invariant
            i <= opened@.len() <= requests@.len(),
            fds@.len() == i,
            forall|j: int| 0 <= j < i ==> fds@[j] == used_end(requests@[j], opened@[j]),
        decreases opened@.len() - i,
    {
        let fd = match (opened[i], requests[i]) {
            (Opened::Null(fd), _) => fd,
            (Opened::Pipe { write, .. }, OpenRequest::Pipe(Stream::Stdout)) => write,
            (Opened::Pipe { write, .. }, OpenRequest::Pipe(Stream::Stderr)) => write,
            (Opened::Pipe { read, .. }, _) => read,
        };
        fds.push(fd);
        i += 1;
    }
    assert(fds@ =~= child_ends(requests@, opened@));
    fds
}

/// What is needed is requested, nothing else is, and nothing is requested
/// twice.
pub proof fn lemma_requests(streams: Streams)
    ensures
        forall|request: OpenRequest| #[trigger]
            streams.requests().contains(request) <==> (streams.need(Stream::Stdin) == Some(request)
                || streams.need(Stream::Stdout) == Some(request) || streams.need(Stream::Stderr)
                == Some(request)),
        streams.requests().no_duplicates(),
{
    let one = with_request(seq![], streams.need(Stream::Stdin));
    let two = with_request(one, streams.need(Stream::Stdout));
    lemma_with_request(seq![], streams.need(Stream::Stdin));
    lemma_with_request(one, streams.need(Stream::Stdout));
    lemma_with_request(two, streams.need(Stream::Stderr));
}

/// Adding a request adds nothing but it, and makes no duplicate.
proof fn lemma_with_request(list: Seq<OpenRequest>, need: Option<OpenRequest>)
    requires
        list.no_duplicates(),
    ensures
        with_request(list, need).no_duplicates(),
        forall|request: OpenRequest| #[trigger]
            with_request(list, need).contains(request) <==> list.contains(request) || need == Some(
                request,
            ),
{
    broadcast use vstd::seq_lib::group_seq_properties;

    if let Some(added) = need {
        assert forall|request: OpenRequest| #[trigger]
            with_request(list, need).contains(request) <==> list.contains(request) || need == Some(
                request,
            ) by {
            if !list.contains(added) {
                assert(with_request(list, need)[list.len() as int] == added);
            }
        }
    }
}

/// The null device is opened at most once, a pipe is opened for exactly the
/// piped streams, and nothing is opened for streams that are inherited.
pub proof fn law_what_is_opened(streams: Streams)
    ensures
        streams.requests().no_duplicates(),
        streams.requests().len() <= 3,
        streams.requests().contains(OpenRequest::Null) <==> streams.stdin
            == PandoraStdioWriteMode::Null || streams.stdout == PandoraStdioReadMode::Null
            || streams.stderr == PandoraStdioReadMode::Null,
        streams.requests().contains(OpenRequest::Pipe(Stream::Stdin)) <==> streams.stdin
            == PandoraStdioWriteMode::Pipe,
        streams.requests().contains(OpenRequest::Pipe(Stream::Stdout)) <==> streams.stdout
            == PandoraStdioReadMode::Pipe,
        streams.requests().contains(OpenRequest::Pipe(Stream::Stderr)) <==> streams.stderr
            == PandoraStdioReadMode::Pipe,
{
    lemma_requests(streams);
}

/// A piped stream has the two ends of a pipe of its own, one for the child and
/// one for the parent. A null stream has the null device for the child and
/// nothing for the parent. An inherited stream has neither.
pub proof fn law_each_stream_has_its_ends(streams: Streams, opened: Seq<Opened>, stream: Stream)
    requires
        opened.len() == streams.requests().len(),
        are_answered(streams.requests(), opened),
    ensures
        match streams.need(stream) {
            Some(OpenRequest::Pipe(_)) => {
                let index = streams.requests().index_of(OpenRequest::Pipe(stream));
                &&& 0 <= index < opened.len()
                &&& opened[index] matches Opened::Pipe { read, write }
                &&& streams.for_child(opened, stream) == Some(
                    if stream is Stdin {
                        read
                    } else {
                        write
                    },
                )
                &&& streams.for_parent(opened, stream) == Some(
                    if stream is Stdin {
                        write
                    } else {
                        read
                    },
                )
                &&& forall|other: Stream|
                    other != stream ==> #[trigger] streams.need(other) != Some(
                        OpenRequest::Pipe(stream),
                    )
            },
            Some(OpenRequest::Null) => {
                let index = streams.requests().index_of(OpenRequest::Null);
                &&& 0 <= index < opened.len()
                &&& opened[index] matches Opened::Null(fd)
                &&& streams.for_child(opened, stream) == Some(fd)
                &&& streams.for_parent(opened, stream) is None
            },
            None => streams.for_child(opened, stream) is None && streams.for_parent(
                opened,
                stream,
            ) is None,
        },
{
    lemma_requests(streams);
    if let Some(request) = streams.need(stream) {
        assert(streams.requests().contains(request));
        let index = streams.requests().index_of(request);
        assert(streams.requests()[index] == request);
        assert(answers(streams.requests()[index], opened[index]));
    }
}

/// Every descriptor of what was opened is among all of them.
pub proof fn lemma_all_ends(opened: Seq<Opened>, i: int, fd: i32)
    requires
        0 <= i < opened.len(),
        ends_of(opened[i]).contains(fd),
    ensures
        all_ends(opened).contains(fd),
    decreases opened.len(),
{
    let early = all_ends(opened.drop_last());
    let last = ends_of(opened.last());
    if i == opened.len() - 1 {
        let b = last.index_of(fd);
        assert(all_ends(opened)[early.len() + b] == fd);
    } else {
        assert(opened.drop_last()[i] == opened[i]);
        lemma_all_ends(opened.drop_last(), i, fd);
        let a = early.index_of(fd);
        assert(all_ends(opened)[a] == fd);
    }
}

/// Where no descriptor was given out twice, the child's ends are different
/// ones, and the other ends of the pipes are not among them.
proof fn lemma_child_ends(requests: Seq<OpenRequest>, opened: Seq<Opened>)
    requires
        are_answered(requests, opened),
        all_ends(opened).no_duplicates(),
    ensures
        child_ends(requests, opened).no_duplicates(),
        forall|i: int, fd: i32|
            0 <= i < opened.len() && #[trigger] ends_of(opened[i]).contains(fd) && fd != used_end(
                requests[i],
                opened[i],
            ) ==> !child_ends(requests, opened).contains(fd),
    decreases opened.len(),
{
    if opened.len() > 0 {
        let before = opened.drop_last();
        let n = before.len() as int;
        let early = all_ends(before);
        let last = ends_of(opened.last());
        assert(all_ends(opened) == early + last);
        assert forall|a: int, b: int| 0 <= a < b < early.len() implies early[a] != early[b] by {
            assert(all_ends(opened)[a] != all_ends(opened)[b]);
        }
        assert(early.no_duplicates());
        assert forall|k: int| 0 <= k < before.len() implies answers(
            requests[k],
            #[trigger] before[k],
        ) by {
            assert(before[k] == opened[k]);
        }
        lemma_child_ends(requests, before);
        assert forall|fd: i32| early.contains(fd) implies !last.contains(fd) by {
            if last.contains(fd) {
                let a = early.index_of(fd);
                let b = last.index_of(fd);
                assert(all_ends(opened)[a] == fd);
                assert(all_ends(opened)[early.len() + b] == fd);
            }
        }
        let used = used_end(requests[n], opened[n]);
        assert(answers(requests[n], opened[n]));
        assert(last.contains(used)) by {
            assert(last[0] == used || last[1] == used);
        }
        let fewer = child_ends(requests, before);
        let all = child_ends(requests, opened);
        assert(all =~= fewer.push(used));
        assert forall|k: int| 0 <= k < n implies early.contains(#[trigger] fewer[k]) by {
            assert(answers(requests[k], opened[k]));
            let ends = ends_of(before[k]);
            assert(ends[0] == fewer[k] || ends[1] == fewer[k]);
            assert(ends.contains(fewer[k]));
            lemma_all_ends(before, k, fewer[k]);
        }
        assert forall|i: int, fd: i32|
            0 <= i < opened.len() && #[trigger] ends_of(opened[i]).contains(fd) && fd != used_end(
                requests[i],
                opened[i],
            ) implies !all.contains(fd) by {
            if all.contains(fd) {
                let k = all.index_of(fd);
                if i < n {
                    assert(ends_of(before[i]).contains(fd));
                    assert(!fewer.contains(fd));
                    lemma_all_ends(before, i, fd);
                    if k < n {
                        assert(fewer[k] == fd);
                    }
                } else if k < n {
                    assert(fewer[k] == fd);
                }
            }
        }
    }
}

/// Nothing is closed twice, and nothing that is kept: where no descriptor was
/// given out twice, the ends that only the child uses and the passed
/// descriptors are different ones, and no end that the parent keeps is among
/// them.
pub proof fn law_each_descriptor_is_closed_once(
    streams: Streams,
    opened: Seq<Opened>,
    pass_fds: Seq<i32>,
)
    requires
        opened.len() == streams.requests().len(),
        are_answered(streams.requests(), opened),
        (all_ends(opened) + pass_fds).no_duplicates(),
    ensures
        (child_ends(streams.requests(), opened) + pass_fds).no_duplicates(),
        forall|stream: Stream, fd: i32| #[trigger]
            streams.for_parent(opened, stream) == Some(fd) ==> !(#[trigger] (child_ends(
                streams.requests(),
                opened,
            ) + pass_fds).contains(fd)),
{
    let requests = streams.requests();
    let all = all_ends(opened);
    let used = child_ends(requests, opened);
    assert forall|a: int, b: int| 0 <= a < b < all.len() implies all[a] != all[b] by {
        assert((all + pass_fds)[a] != (all + pass_fds)[b]);
    }
    assert(all.no_duplicates());
    lemma_child_ends(requests, opened);
    assert forall|fd: i32| all.contains(fd) implies !pass_fds.contains(fd) by {
        if pass_fds.contains(fd) {
            let a = all.index_of(fd);
            let b = pass_fds.index_of(fd);
            assert((all + pass_fds)[a] == fd);
            assert((all + pass_fds)[all.len() + b] == fd);
        }
    }
    assert forall|k: int| 0 <= k < used.len() implies all.contains(#[trigger] used[k]) by {
        assert(answers(requests[k], opened[k]));
        let ends = ends_of(opened[k]);
        assert(ends[0] == used[k] || ends[1] == used[k]);
        assert(ends.contains(used[k]));
        lemma_all_ends(opened, k, used[k]);
    }
    let closed = used + pass_fds;
    assert forall|a: int, b: int| 0 <= a < b < closed.len() implies closed[a] != closed[b] by {
        if b < used.len() {
            assert(used[a] != used[b]);
        } else if a >= used.len() {
            assert((all + pass_fds)[a - used.len() + all.len()] != (all + pass_fds)[b - used.len()
                + all.len()]);
        } else {
            assert(all.contains(used[a]));
            assert(pass_fds[b - used.len()] == closed[b]);
        }
    }
    assert forall|stream: Stream, fd: i32| #[trigger]
        streams.for_parent(opened, stream) == Some(fd) implies !#[trigger] closed.contains(fd) by {
        lemma_requests(streams);
        let request = streams.need(stream)->0;
        assert(requests.contains(request));
        let index = requests.index_of(request);
        assert(requests[index] == request);
        assert(answers(requests[index], opened[index]));
        let ends = ends_of(opened[index]);
        assert(ends[0] == fd || ends[1] == fd);
        assert(ends.contains(fd));
        lemma_all_ends(opened, index, fd);
        assert(fd != used_end(requests[index], opened[index])) by {
            lemma_ends_differ(opened, index);
        }
        if closed.contains(fd) {
            let k = closed.index_of(fd);
            if k < used.len() {
                assert(used[k] == fd);
            } else {
                assert(pass_fds[k - used.len()] == fd);
            }
        }
    }
}

/// Where no descriptor was given out twice, the ends of a pipe differ.
proof fn lemma_ends_differ(opened: Seq<Opened>, i: int)
    requires
        all_ends(opened).no_duplicates(),
        0 <= i < opened.len(),
    ensures
        opened[i] matches Opened::Pipe { read, write } ==> read != write,
    decreases opened.len(),
{
    let early = all_ends(opened.drop_last());
    let last = ends_of(opened.last());
    if i == opened.len() - 1 {
        if last.len() == 2 {
            assert(all_ends(opened)[early.len() as int] == last[0]);
            assert(all_ends(opened)[early.len() + 1int] == last[1]);
        }
    } else {
        assert forall|a: int, b: int| 0 <= a < b < early.len() implies early[a] != early[b] by {
            assert(all_ends(opened)[a] != all_ends(opened)[b]);
        }
        lemma_ends_differ(opened.drop_last(), i);
    }
}

/// Each stream is connected as its own mode says, whatever the modes of the
/// others are. An inherited stream is left alone. A null stream is the null
/// device for the child, and the parent keeps nothing of it. Of a pipe the
/// child has one end and the parent the other.
///
/// Things are opened in the order of the streams: what is opened for the input
/// is the first thing, what is opened for the output follows what was opened for
/// the input, and a pipe for the errors is the last thing. The null device is
/// opened where it is first needed.
pub proof fn law_streams_follow_their_modes(streams: Streams, opened: Seq<Opened>)
    requires
        opened.len() == streams.requests().len(),
        are_answered(streams.requests(), opened),
    ensures
        ({
            let wiring = streams.wiring(opened);
            let second: int = if streams.stdin is Inherit {
                0
            } else {
                1
            };
            let last = opened.len() - 1;
            let null: int = if streams.stdin is Null {
                0
            } else if streams.stdout is Null {
                second
            } else {
                last
            };
            &&& match streams.stdin {
                PandoraStdioWriteMode::Inherit => wiring.stdin_read is None && wiring.stdin_write
                    is None,
                PandoraStdioWriteMode::Null => {
                    &&& 0 <= null < opened.len()
                    &&& opened[null] matches Opened::Null(fd)
                    &&& wiring.stdin_read == Some(fd)
                    &&& wiring.stdin_write is None
                },
                PandoraStdioWriteMode::Pipe => {
                    &&& opened.len() > 0
                    &&& opened[0] matches Opened::Pipe { read, write }
                    &&& wiring.stdin_read == Some(read)
                    &&& wiring.stdin_write == Some(write)
                },
            }
            &&& match streams.stdout {
                PandoraStdioReadMode::Inherit => wiring.stdout_write is None && wiring.stdout_read
                    is None,
                PandoraStdioReadMode::Null => {
                    &&& 0 <= null < opened.len()
                    &&& opened[null] matches Opened::Null(fd)
                    &&& wiring.stdout_write == Some(fd)
                    &&& wiring.stdout_read is None
                },
                PandoraStdioReadMode::Pipe => {
                    &&& second < opened.len()
                    &&& opened[second] matches Opened::Pipe { read, write }
                    &&& wiring.stdout_write == Some(write)
                    &&& wiring.stdout_read == Some(read)
                },
            }
            &&& match streams.stderr {
                PandoraStdioReadMode::Inherit => wiring.stderr_write is None && wiring.stderr_read
                    is None,
                PandoraStdioReadMode::Null => {
                    &&& 0 <= null < opened.len()
                    &&& opened[null] matches Opened::Null(fd)
                    &&& wiring.stderr_write == Some(fd)
                    &&& wiring.stderr_read is None
                },
                PandoraStdioReadMode::Pipe => {
                    &&& last >= 0
                    &&& opened[last] matches Opened::Pipe { read, write }
                    &&& wiring.stderr_write == Some(write)
                    &&& wiring.stderr_read == Some(read)
                    &&& streams.stdout is Pipe ==> last > second
                    &&& streams.stdin is Pipe ==> last > 0
                },
            }
        }),
{
    lemma_requests_listed(streams);
    let requests = streams.requests();
    assert forall|stream: Stream| #[trigger] streams.need(stream) is Some implies ({
        let i = requests.index_of(streams.need(stream)->0);
        &&& 0 <= i < requests.len()
        &&& requests[i] == streams.need(stream)->0
        &&& answers(requests[i], opened[i])
    }) by {
        lemma_requests(streams);
        assert(requests.contains(streams.need(stream)->0));
        let i = requests.index_of(streams.need(stream)->0);
        assert(answers(requests[i], opened[i]));
    }
    lemma_requests(streams);
    let _ = streams.need(Stream::Stdin);
    let _ = streams.need(Stream::Stdout);
    let _ = streams.need(Stream::Stderr);
}

/// The list of what is opened, for each combination of modes.
proof fn lemma_requests_listed(streams: Streams)
    ensures
        ({
            let r = streams.requests();
            let a = streams.need(Stream::Stdin);
            let b = streams.need(Stream::Stdout);
            let c = streams.need(Stream::Stderr);
            let second: int = if a is None {
                0
            } else {
                1
            };
            &&& a matches Some(request) ==> r.len() > 0 && r[0] == request
            &&& b matches Some(request) ==> a == b || (second < r.len() && r[second] == request)
            &&& c matches Some(request) ==> a == c || b == c || (r.len() > 0 && r.last() == request)
            &&& r.len() <= 3
        }),
{
    let one = with_request(seq![], streams.need(Stream::Stdin));
    let two = with_request(one, streams.need(Stream::Stdout));
    let three = with_request(two, streams.need(Stream::Stderr));
    lemma_with_request(seq![], streams.need(Stream::Stdin));
    lemma_with_request(one, streams.need(Stream::Stdout));
    lemma_with_request(two, streams.need(Stream::Stderr));
    assert(!Seq::<OpenRequest>::empty().contains(OpenRequest::Null));
}

/// What is opened depends on the modes alone: one pipe for each piped stream,
/// the null device once where some stream needs it, and nothing else.
pub proof fn law_how_much_is_opened(streams: Streams)
    ensures
        streams.requests().len() == (if streams.stdin is Pipe {
            1int
        } else {
            0
        }) + (if streams.stdout is Pipe {
            1int
        } else {
            0
        }) + (if streams.stderr is Pipe {
            1int
        } else {
            0
        }) + (if streams.stdin is Null || streams.stdout is Null || streams.stderr is Null {
            1int
        } else {
            0
        }),
        forall|i: int|
            0 <= i < streams.requests().len() ==> match #[trigger] streams.requests()[i] {
                OpenRequest::Null => streams.stdin is Null || streams.stdout is Null
                    || streams.stderr is Null,
                OpenRequest::Pipe(Stream::Stdin) => streams.stdin is Pipe,
                OpenRequest::Pipe(Stream::Stdout) => streams.stdout is Pipe,
                OpenRequest::Pipe(Stream::Stderr) => streams.stderr is Pipe,
            },
{
    lemma_requests(streams);
    let one = with_request(seq![], streams.need(Stream::Stdin));
    let two = with_request(one, streams.need(Stream::Stdout));
    lemma_with_request(seq![], streams.need(Stream::Stdin));
    lemma_with_request(one, streams.need(Stream::Stdout));
    lemma_with_request(two, streams.need(Stream::Stderr));
    assert forall|i: int| 0 <= i < streams.requests().len() implies match #[trigger] streams.requests()[i] {
        OpenRequest::Null => streams.stdin is Null || streams.stdout is Null || streams.stderr
            is Null,
        OpenRequest::Pipe(Stream::Stdin) => streams.stdin is Pipe,
        OpenRequest::Pipe(Stream::Stdout) => streams.stdout is Pipe,
        OpenRequest::Pipe(Stream::Stderr) => streams.stderr is Pipe,
    } by {
        assert(streams.requests().contains(streams.requests()[i]));
    }
}

/// A request for the null device is answered by it alone, and one for a pipe by
/// a pipe alone.
pub proof fn law_answers_are_of_the_kind_asked_for(
    request: OpenRequest,
    fd: i32,
    read: i32,
    write: i32,
)
    ensures
        answers(request, Opened::Null(fd)) <==> request is Null,
        answers(request, Opened::Pipe { read, write }) <==> !(request is Null),
{
}

/// Nothing but what was opened is closed. What only the child uses is one
/// descriptor of each opened thing: of the pipe for the input the end to read
/// from, of the other pipes the end to write to. All descriptors are one of the
/// null device and two of each pipe, listed once for each thing, in the order of
/// opening.
pub proof fn law_only_what_was_opened_is_closed(
    requests: Seq<OpenRequest>,
    opened: Seq<Opened>,
    new: Opened,
)
    requires
        are_answered(requests, opened),
    ensures
        child_ends(requests, opened).len() == opened.len(),
        forall|i: int|
            0 <= i < opened.len() ==> match #[trigger] opened[i] {
                Opened::Null(fd) => child_ends(requests, opened)[i] == fd,
                Opened::Pipe { read, write } => child_ends(requests, opened)[i] == if requests[i]
                    == OpenRequest::Pipe(Stream::Stdin) {
                    read
                } else {
                    write
                },
            },
        forall|fd: i32| #[trigger]
            all_ends(opened).contains(fd) <==> exists|i: int|
                0 <= i < opened.len() && match #[trigger] opened[i] {
                    Opened::Null(null) => fd == null,
                    Opened::Pipe { read, write } => fd == read || fd == write,
                },
        all_ends(seq![]).len() == 0,
        all_ends(opened.push(new)) == all_ends(opened) + match new {
            Opened::Null(fd) => seq![fd],
            Opened::Pipe { read, write } => seq![read, write],
        },
{
    assert(opened.push(new).drop_last() =~= opened);
    assert forall|i: int| 0 <= i < opened.len() implies match #[trigger] opened[i] {
        Opened::Null(fd) => child_ends(requests, opened)[i] == fd,
        Opened::Pipe { read, write } => child_ends(requests, opened)[i] == if requests[i]
            == OpenRequest::Pipe(Stream::Stdin) {
            read
        } else {
            write
        },
    } by {
        assert(answers(requests[i], opened[i]));
    }
    assert forall|fd: i32| #[trigger] all_ends(opened).contains(fd) <==> exists|i: int|
        0 <= i < opened.len() && match #[trigger] opened[i] {
            Opened::Null(null) => fd == null,
            Opened::Pipe { read, write } => fd == read || fd == write,
        } by {
        if all_ends(opened).contains(fd) {
            lemma_end_belongs(opened, fd);
        }
        if exists|i: int|
            0 <= i < opened.len() && match #[trigger] opened[i] {
                Opened::Null(null) => fd == null,
                Opened::Pipe { read, write } => fd == read || fd == write,
            } {
            let i = choose|i: int|
                0 <= i < opened.len() && match #[trigger] opened[i] {
                    Opened::Null(null) => fd == null,
                    Opened::Pipe { read, write } => fd == read || fd == write,
                };
            let ends = ends_of(opened[i]);
            if ends[0] != fd {
                assert(ends[1] == fd);
            }
            assert(ends.contains(fd));
            lemma_all_ends(opened, i, fd);
        }
    }
}

/// Every one of all the descriptors is one of an opened thing.
proof fn lemma_end_belongs(opened: Seq<Opened>, fd: i32)
    requires
        all_ends(opened).contains(fd),
    ensures
        exists|i: int|
            0 <= i < opened.len() && match #[trigger] opened[i] {
                Opened::Null(null) => fd == null,
                Opened::Pipe { read, write } => fd == read || fd == write,
            },
    decreases opened.len(),
{
    if opened.len() > 0 {
        let before = opened.drop_last();
        let k = all_ends(opened).index_of(fd);
        let n = all_ends(before).len();
        if k < n {
            assert(all_ends(before)[k] == fd);
            lemma_end_belongs(before, fd);
            let i = choose|i: int|
                0 <= i < before.len() && match #[trigger] before[i] {
                    Opened::Null(null) => fd == null,
                    Opened::Pipe { read, write } => fd == read || fd == write,
                };
            assert(opened[i] == before[i]);
        } else {
            assert(ends_of(opened.last())[k - n] == fd);
            assert(opened[opened.len() - 1] == opened.last());
        }
    }
}

} // verus!
