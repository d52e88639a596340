//! What a scan is asked to do.

use vstd::prelude::*;

verus! {

/// Why a scan request was turned down.
#[derive(Clone, Copy, Debug, PartialEq, Eq, Structural)]
pub enum RequestError {
    /// The first port of the range lies above the last.
    InvertedRange,
    /// The deadline of a probe is zero.
    ZeroTimeout,
}

/// A scan request that passed validation. It cannot be changed afterwards.
#[derive(Clone, Debug, PartialEq, Eq)]
pub struct ScanRequest {
    host: String,
    start_port: u16,
    end_port: u16,
    timeout_millis: u64,
    concurrency: usize,
}

/// The mathematical content of a [`ScanRequest`].
pub struct RequestView {
    pub host: Seq<char>,
    /// First port of the range.
    pub start_port: u16,
    /// Last port of the range, itself included.
    pub end_port: u16,
    /// Deadline of one probe, in milliseconds.
    pub timeout_millis: u64,
    /// The most probes that may be under way at once.
    pub concurrency: usize,
}

impl RequestView {
    /// A request is valid when its range is not inverted, its deadline is
    /// positive and it allows at least one probe at a time.
    pub open spec fn valid(self) -> bool {
        &&& self.start_port <= self.end_port
        &&& self.timeout_millis > 0
        &&& self.concurrency >= 1
    }

    /// The number of ports in the range, both ends included.
    pub open spec fn total_ports(self) -> nat {
        if self.start_port <= self.end_port {
            (self.end_port - self.start_port + 1) as nat
        } else {
            0
        }
    }

    /// How many rounds of `concurrency` probes each it takes to cover the
    /// range: the number of ports divided by the concurrency, rounded up.
    pub open spec fn rounds(self) -> nat {
        ((self.total_ports() + self.concurrency - 1) / (self.concurrency as int)) as nat
    }

    /// The longest a scan can take, in milliseconds, when every probe runs
    /// into its deadline: one deadline for each round.
    pub open spec fn worst_case_millis(self) -> nat {
        self.rounds() * (self.timeout_millis as nat)
    }
}

/// The ceiling a requested concurrency stands for: itself, but at least one.
pub open spec fn clamp_concurrency(requested: usize) -> usize {
    if requested < 1 {
        1
    } else {
        requested
    }
}

impl View for ScanRequest {
    type V = RequestView;

    closed spec fn view(&self) -> RequestView {
        RequestView {
            host: self.host@,
            start_port: self.start_port,
            end_port: self.end_port,
            timeout_millis: self.timeout_millis,
            concurrency: self.concurrency,
        }
    }
}

impl ScanRequest {
    /// Every request that `new` hands out is valid.
    pub open spec fn wf(&self) -> bool {
        self@.valid()
    }

    /// Validates the parts of a request and puts them together. An inverted
    /// range is reported before a zero deadline. A concurrency of zero is not
    /// an error: it is raised to one.
    pub fn new(
        host: String,
        start_port: u16,
        end_port: u16,
        timeout_millis: u64,
        concurrency: usize,
    ) -> (made: Result<ScanRequest, RequestError>)
        ensures
            start_port > end_port ==> made == Err::<ScanRequest, RequestError>(
                RequestError::InvertedRange,
            ),
            start_port <= end_port && timeout_millis == 0 ==> made == Err::<
                ScanRequest,
                RequestError,
            >(RequestError::ZeroTimeout),
            start_port <= end_port && timeout_millis > 0 ==> made is Ok && made->Ok_0.wf()
                && made->Ok_0@ == (RequestView {
                host: host@,
                start_port,
                end_port,
                timeout_millis,
                concurrency: clamp_concurrency(concurrency),
            }),
    {
        if start_port > end_port {
            return Err(RequestError::InvertedRange);
        }
        if timeout_millis == 0 {
            return Err(RequestError::ZeroTimeout);
        }
        let concurrency: usize = if concurrency < 1 {
            1
        } else {
            concurrency
        };
        Ok(ScanRequest { host, start_port, end_port, timeout_millis, concurrency })
    }

    /// The host to probe.
    pub fn host(&self) -> (host: &str)
        ensures
            host@ == self@.host,
    {
        self.host.as_str()
    }

    /// First port of the range.
    pub fn start_port(&self) -> (port: u16)
        ensures
            port == self@.start_port,
    {
        self.start_port
    }

    /// Last port of the range, itself included.
    pub fn end_port(&self) -> (port: u16)
        ensures
            port == self@.end_port,
    {
        self.end_port
    }

    /// Deadline of one probe, in milliseconds.
    pub fn timeout_millis(&self) -> (millis: u64)
        ensures
            millis == self@.timeout_millis,
    {
        self.timeout_millis
    }

    /// The most probes that may be under way at once.
    pub fn concurrency(&self) -> (ceiling: usize)
        ensures
            ceiling == self@.concurrency,
    {
        self.concurrency
    }

    /// The longest the scan can take, in milliseconds, when every probe runs
    /// into its deadline.
    pub fn worst_case_millis(&self) -> (millis: u128)
        requires
            self.wf(),
        ensures
            millis == self@.worst_case_millis(),
    {
        let total: u128 = self.total_ports() as u128;
        let ceiling: u128 = self.concurrency as u128;
        let rounds: u128 = (total + ceiling - 1) / ceiling;
        assert(rounds <= total) by (nonlinear_arith)
            requires
                rounds == (total + ceiling - 1) / (ceiling as int),
                ceiling >= 1,
                total >= 1,
        ;
        assert(rounds * self.timeout_millis <= 0x1_0000 * 0xffff_ffff_ffff_ffff) by (nonlinear_arith)
            requires
                rounds <= 0x1_0000,
                self.timeout_millis <= 0xffff_ffff_ffff_ffff,
        ;
        rounds * (self.timeout_millis as u128)
    }

    /// The number of ports in the range, both ends included.
    pub fn total_ports(&self) -> (total: usize)
        ensures
            total == self@.total_ports(),
            self.wf() ==> total == self@.end_port - self@.start_port + 1,
    {
        if self.start_port <= self.end_port {
            (self.end_port - self.start_port) as usize + 1
        } else {
            0
        }
    }
}

} // verus!
