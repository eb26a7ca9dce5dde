use vstd::prelude::*;

verus! {

/// Status of a response that no handler set.
pub const STATUS_DEFAULT: u16 = 200;

/// Status of a request that no route matched.
pub const STATUS_NOT_FOUND: u16 = 404;

/// Status of a request whose handler failed.
pub const STATUS_INTERNAL_ERROR: u16 = 500;

/// What a handler asks of the chain once it has run.
#[derive(PartialEq, Eq, Structural, Debug, Clone, Copy)]
pub enum Flow {
    /// Go on with the next handler.
    Continue,
    /// Skip the remaining middleware and the goal.
    SkipRest,
    /// Stop at once; the response stands as it is.
    Stop,
}

/// What running one handler did.
pub enum Outcome {
    /// It returned: the status and body it set, if any, and the flow it asked for.
    Done { status: Option<u16>, body: Option<String>, flow: Flow },
    /// It failed.
    Failed,
}

/// The next thing a request's chain runs.
#[derive(PartialEq, Eq, Structural, Debug, Clone, Copy)]
pub enum Stage {
    /// The middleware at this position.
    Hoop(usize),
    /// The goal handler.
    Goal,
    /// The catcher: the chain is over.
    Catch,
}

/// A response as the chain builds it; a missing body is the default one for the status.
pub struct Response {
    pub status: u16,
    pub body: Option<String>,
}

/// The mathematical value of a `Response`.
pub struct ResponseView {
    pub status: u16,
    pub body: Option<Seq<char>>,
}

impl View for Response {
    type V = ResponseView;

    open spec fn view(&self) -> ResponseView {
        ResponseView {
            status: self.status,
            body: match self.body {
                Some(b) => Some(b@),
                None => None,
            },
        }
    }
}

/// Where one request stands in its chain of `hoops` middleware and a goal.
pub struct ChainState {
    pub hoops: usize,
    pub next: Stage,
    pub response: Response,
}

/// The mathematical value of a `ChainState`.
pub struct ChainView {
    pub hoops: usize,
    pub next: Stage,
    pub response: ResponseView,
}

impl View for ChainState {
    type V = ChainView;

    open spec fn view(&self) -> ChainView {
        ChainView { hoops: self.hoops, next: self.next, response: self.response@ }
    }
}

/// A middleware position is one of the chain's.
pub open spec fn chain_wf(c: ChainView) -> bool {
    c.next matches Stage::Hoop(i) ==> i < c.hoops
}

/// How many handlers at most are left to run before the catcher.
pub open spec fn remaining(c: ChainView) -> nat {
    match c.next {
        Stage::Hoop(i) => (c.hoops - i + 1) as nat,
        Stage::Goal => 1,
        Stage::Catch => 0,
    }
}

/// The stage after the middleware at position `i` continues.
pub open spec fn after_hoop(hoops: usize, i: usize) -> Stage {
    if i + 1 < hoops { Stage::Hoop((i + 1) as usize) } else { Stage::Goal }
}

/// The state after the handler at `c.next` finished with `o`: a failure gives 500 and goes to
/// the catcher; otherwise the status and body it set replace the old ones, and the chain goes
/// on, or goes to the catcher on skip or stop and after the goal.
pub open spec fn step_spec(c: ChainView, o: Outcome) -> ChainView {
    match o {
        Outcome::Failed => ChainView {
            hoops: c.hoops,
            next: Stage::Catch,
            response: ResponseView { status: STATUS_INTERNAL_ERROR, body: None },
        },
        Outcome::Done { status, body, flow } => {
            let response = ResponseView {
                status: match status {
                    Some(s) => s,
                    None => c.response.status,
                },
                body: match body {
                    Some(b) => Some(b@),
                    None => c.response.body,
                },
            };
            let next = match c.next {
                Stage::Hoop(i) => if flow == Flow::Continue { after_hoop(c.hoops, i) } else { Stage::Catch },
                _ => Stage::Catch,
            };
            ChainView { hoops: c.hoops, next, response }
        },
    }
}

impl ChainState {
    /// A matched request with `hoops` middleware before its goal, and a default response.
    pub fn start(hoops: usize) -> (r: ChainState)
        ensures
            chain_wf(r@),
            r@.hoops == hoops,
            r@.next == (if hoops > 0 { Stage::Hoop(0) } else { Stage::Goal }),
            r@.response == (ResponseView { status: STATUS_DEFAULT, body: None }),
    {
        let next = if hoops > 0 { Stage::Hoop(0) } else { Stage::Goal };
        ChainState { hoops, next, response: Response { status: STATUS_DEFAULT, body: None } }
    }

    /// A request that no route matched: a 404 response, handed straight to the catcher.
    pub fn unmatched() -> (r: ChainState)
        ensures
            chain_wf(r@),
            r@.next == Stage::Catch,
            r@.response == (ResponseView { status: STATUS_NOT_FOUND, body: None }),
    {
        ChainState { hoops: 0, next: Stage::Catch, response: Response { status: STATUS_NOT_FOUND, body: None } }
    }

    /// Records what the handler at `self.next` did and moves the chain on.
    pub fn step(&mut self, o: Outcome)
        requires
            chain_wf(old(self)@),
            old(self)@.next != Stage::Catch,
        ensures
            final(self)@ == step_spec(old(self)@, o),
            chain_wf(final(self)@),
            remaining(final(self)@) < remaining(old(self)@),
    {
        match o {
            Outcome::Failed => {
                self.next = Stage::Catch;
                self.response = Response { status: STATUS_INTERNAL_ERROR, body: None };
            },
            Outcome::Done { status, body, flow } => {
                match status {
                    Some(s) => {
                        self.response.status = s;
                    },
                    None => {},
                }
                match body {
                    Some(b) => {
                        self.response.body = Some(b);
                    },
                    None => {},
                }
                self.next = match self.next {
                    Stage::Hoop(i) => if flow == Flow::Continue {
                        if i + 1 < self.hoops { Stage::Hoop(i + 1) } else { Stage::Goal }
                    } else {
                        Stage::Catch
                    },
                    _ => Stage::Catch,
                };
            },
        }
    }
}

/// A fallback of the catcher: on a response with status `on_status`, it renders `body` with
/// status `status` and handles the response.
pub struct Fallback {
    pub on_status: u16,
    pub status: u16,
    pub body: String,
}

/// The mathematical value of a `Fallback`.
pub struct FallbackView {
    pub on_status: u16,
    pub status: u16,
    pub body: Seq<char>,
}

impl View for Fallback {
    type V = FallbackView;

    open spec fn view(&self) -> FallbackView {
        FallbackView { on_status: self.on_status, status: self.status, body: self.body@ }
    }
}

/// The values of a sequence of fallbacks.
pub open spec fn fallback_views(fs: Seq<Fallback>) -> Seq<FallbackView> {
    fs.map_values(|f: Fallback| f@)
}

/// A 2xx status.
pub open spec fn is_success(status: u16) -> bool {
    200 <= status < 300
}

/// The response after fallbacks `fs` from position `i` on: the first whose status is the
/// response's renders it; when none does, the response is kept.
pub open spec fn catch_from(r: ResponseView, fs: Seq<FallbackView>, i: int) -> ResponseView
    decreases fs.len() - i,
{
    if i < 0 || i >= fs.len() {
        r
    } else if fs[i].on_status == r.status {
        ResponseView { status: fs[i].status, body: Some(fs[i].body) }
    } else {
        catch_from(r, fs, i + 1)
    }
}

/// What the catcher makes of response `r`: a success passes untouched, any other status
/// goes through the fallbacks in order.
pub open spec fn catch_spec(r: ResponseView, fs: Seq<FallbackView>) -> ResponseView {
    if is_success(r.status) {
        r
    } else {
        catch_from(r, fs, 0)
    }
}

/// Runs the catcher over `response`.
pub fn catch(response: Response, fallbacks: &Vec<Fallback>) -> (r: Response)
    ensures
        r@ == catch_spec(response@, fallback_views(fallbacks@)),
{
    if 200 <= response.status && response.status < 300 {
        return response;
    }
    let ghost fs = fallback_views(fallbacks@);
    let mut i: usize = 0;
    while i < fallbacks.len()
        invariant
            i <= fallbacks.len(),
            fs == fallback_views(fallbacks@),
            !is_success(response.status),
            catch_from(response@, fs, 0) == catch_from(response@, fs, i as int),
        decreases fallbacks.len() - i,
    {
        assert(fs[i as int] == fallbacks@[i as int]@);
        if fallbacks[i].on_status == response.status {
            let body = fallbacks[i].body.clone();
            assert(body@ == fs[i as int].body);
            let r = Response { status: fallbacks[i].status, body: Some(body) };
            assert(r@ == catch_from(response@, fs, i as int));
            return r;
        }
        i = i + 1;
    }
    response
}

impl ChainState {
    /// The one response of a request whose chain is over: what the catcher makes of it.
    pub fn finish(self, fallbacks: &Vec<Fallback>) -> (r: Response)
        requires
            self@.next == Stage::Catch,
        ensures
            r@ == catch_spec(self@.response, fallback_views(fallbacks@)),
    {
        catch(self.response, fallbacks)
    }
}

/// The state after the handlers' outcomes `os`, taken in turn until the catcher is reached.
pub open spec fn drive(c: ChainView, os: Seq<Outcome>) -> ChainView
    decreases os.len(),
{
    if os.len() == 0 || c.next == Stage::Catch {
        c
    } else {
        drive(step_spec(c, os[0]), os.drop_first())
    }
}

/// Every request reaches the catcher, and so gets its one response, after at most one
/// outcome per middleware and one for the goal, whatever those outcomes are: normal
/// completion, skip, stop or failure.
pub proof fn lemma_chain_reaches_catcher(c: ChainView, os: Seq<Outcome>)
    requires
        chain_wf(c),
        os.len() >= remaining(c),
    ensures
        drive(c, os).next == Stage::Catch,
    decreases os.len(),
{
    if os.len() > 0 && c.next != Stage::Catch {
        let c1 = step_spec(c, os[0]);
        assert(chain_wf(c1) && remaining(c1) < remaining(c));
        lemma_chain_reaches_catcher(c1, os.drop_first());
    }
}

/// A skip, a stop or a failure of a middleware ends the chain at once, before the goal;
/// a failure, there or in the goal, makes the response a 500.
pub proof fn lemma_short_circuit(c: ChainView, o: Outcome)
    requires
        chain_wf(c),
        c.next != Stage::Catch,
        o is Failed || (c.next is Hoop && (o matches Outcome::Done { flow, .. } && flow != Flow::Continue)),
    ensures
        step_spec(c, o).next == Stage::Catch,
        o is Failed ==> step_spec(c, o).response.status == STATUS_INTERNAL_ERROR,
{
}

} // verus!
