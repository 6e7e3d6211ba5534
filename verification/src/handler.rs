//! The life of one request, as a state machine.
//!
//! A request is received, its parameters are parsed, its rates are read from
//! the store and its amount is converted. The machine decides; whoever drives
//! it does the work that lies outside: it performs each [`Action`] and hands
//! back the [`Event`] that came of it. A request ends in exactly one of five
//! final phases, and from then on the machine asks for nothing more.

use crate::decimal::{scale_in_range, DecimalValue};
use crate::error::{message_of, status_of, ConversionError, STATUS_OK};
use crate::rate::{
    check_rows, lemma_selection_keeps_rates, missing, rates_of, select_rows, selected,
    store_verdict, Rate, RateValue,
};
use crate::parse::text_value;
use crate::render::{is_json_number, lemma_notation_reads_back, notation, write_decimal};
use crate::request::{parse_request, request_of, ConversionRequest, RequestValue};
use crate::resolver::{agrees, resolution, resolve, ConversionResult};
use vstd::prelude::*;

verus! {

/// The seconds that a request may take before it is answered with a timeout.
pub const REQUEST_DEADLINE_SECONDS: u64 = 10;

/// The parameters of a request as they arrive.
#[derive(Debug, PartialEq, Eq)]
pub struct RawParams {
    pub money: String,
    pub from: String,
    pub to: String,
}

/// What [`RawParams`] stand for.
pub struct ParamsValue {
    pub money: Seq<char>,
    pub from: Seq<char>,
    pub to: Seq<char>,
}

impl View for RawParams {
    type V = ParamsValue;

    open spec fn view(&self) -> ParamsValue {
        ParamsValue { money: self.money@, from: self.from@, to: self.to@ }
    }
}

impl Clone for RawParams {
    fn clone(&self) -> (copy: Self)
        ensures
            copy@ == self@,
    {
        RawParams { money: self.money.clone(), from: self.from.clone(), to: self.to.clone() }
    }
}

/// A response: an HTTP status and a body.
#[derive(Debug, PartialEq, Eq)]
pub struct Response {
    pub status: u16,
    pub body: String,
}

/// What a [`Response`] stands for.
pub struct ResponseValue {
    pub status: u16,
    pub body: Seq<char>,
}

impl View for Response {
    type V = ResponseValue;

    open spec fn view(&self) -> ResponseValue {
        ResponseValue { status: self.status, body: self.body@ }
    }
}

/// The media type of the body that goes with a status: JSON for a converted
/// amount, plain text for a message.
pub open spec fn content_type_of(status: u16) -> Seq<char> {
    if status == STATUS_OK {
        "application/json"@
    } else {
        "text/plain; charset=utf-8"@
    }
}

impl Response {
    /// The media type of the body.
    pub fn content_type(&self) -> (r: &'static str)
        ensures
            r@ == content_type_of(self.status),
    {
        if self.status == STATUS_OK {
            "application/json"
        } else {
            "text/plain; charset=utf-8"
        }
    }
}

impl Clone for Response {
    fn clone(&self) -> (copy: Self)
        ensures
            copy@ == self@,
    {
        Response { status: self.status, body: self.body.clone() }
    }
}

/// Where a request stands.
#[derive(Debug, PartialEq, Eq)]
pub enum Phase {
    /// Nothing has been done yet.
    Received,
    /// The parameters are at hand and are to be parsed.
    Parsing(RawParams),
    /// The request is valid; its rates are being read from the store.
    Resolving(ConversionRequest),
    /// Final: answered with the converted amount.
    Succeeded,
    /// Final: the input was invalid.
    Rejected,
    /// Final: the store has no rate for a currency.
    NotFound,
    /// Final: the deadline passed.
    TimedOut,
    /// Final: something failed inside.
    Failed,
}

/// What a [`Phase`] stands for.
pub enum PhaseValue {
    Received,
    Parsing(ParamsValue),
    Resolving(RequestValue),
    Succeeded,
    Rejected,
    NotFound,
    TimedOut,
    Failed,
}

impl View for Phase {
    type V = PhaseValue;

    open spec fn view(&self) -> PhaseValue {
        match self {
            Phase::Received => PhaseValue::Received,
            Phase::Parsing(params) => PhaseValue::Parsing(params@),
            Phase::Resolving(request) => PhaseValue::Resolving(request@),
            Phase::Succeeded => PhaseValue::Succeeded,
            Phase::Rejected => PhaseValue::Rejected,
            Phase::NotFound => PhaseValue::NotFound,
            Phase::TimedOut => PhaseValue::TimedOut,
            Phase::Failed => PhaseValue::Failed,
        }
    }
}

/// What happened outside the machine.
#[derive(Debug, PartialEq, Eq)]
pub enum Event {
    /// The request arrived with these parameters.
    Arrived(RawParams),
    /// Nothing happened: the machine asked to be stepped again.
    Proceed,
    /// The store returned these rows.
    Fetched(Vec<Rate>),
    /// The store could not be read.
    StoreFailed,
    /// The deadline of the request passed.
    DeadlineElapsed,
}

/// What an [`Event`] stands for.
pub enum EventValue {
    Arrived(ParamsValue),
    Proceed,
    Fetched(Seq<RateValue>),
    StoreFailed,
    DeadlineElapsed,
}

impl View for Event {
    type V = EventValue;

    open spec fn view(&self) -> EventValue {
        match self {
            Event::Arrived(params) => EventValue::Arrived(params@),
            Event::Proceed => EventValue::Proceed,
            Event::Fetched(rows) => EventValue::Fetched(rates_of(rows@)),
            Event::StoreFailed => EventValue::StoreFailed,
            Event::DeadlineElapsed => EventValue::DeadlineElapsed,
        }
    }
}

/// What the machine asks its driver to do.
#[derive(Debug, PartialEq, Eq)]
pub enum Action {
    /// Step again, with [`Event::Proceed`].
    Continue,
    /// Read the rates of these two currencies from the store, and step with
    /// what it returned.
    FetchRates { source: String, target: String },
    /// Send this response. The request is over.
    Respond(Response),
    /// Nothing: the request was over before.
    Nothing,
}

/// What an [`Action`] stands for.
pub enum ActionValue {
    Continue,
    FetchRates { source: Seq<char>, target: Seq<char> },
    Respond(ResponseValue),
    Nothing,
}

impl View for Action {
    type V = ActionValue;

    open spec fn view(&self) -> ActionValue {
        match self {
            Action::Continue => ActionValue::Continue,
            Action::FetchRates { source, target } => ActionValue::FetchRates {
                source: source@,
                target: target@,
            },
            Action::Respond(response) => ActionValue::Respond(response@),
            Action::Nothing => ActionValue::Nothing,
        }
    }
}

/// Whether a phase is final.
pub open spec fn is_final(phase: PhaseValue) -> bool {
    phase is Succeeded || phase is Rejected || phase is NotFound || phase is TimedOut
        || phase is Failed
}

/// The final phase that a failure of this kind leads to.
pub open spec fn phase_of(error: ConversionError) -> PhaseValue {
    match error {
        ConversionError::InvalidInput => PhaseValue::Rejected,
        ConversionError::RateNotFound(_) => PhaseValue::NotFound,
        ConversionError::Timeout => PhaseValue::TimedOut,
        ConversionError::InternalError => PhaseValue::Failed,
    }
}

/// The response that reports a failure.
pub open spec fn error_response(error: ConversionError) -> ResponseValue {
    ResponseValue { status: status_of(error), body: message_of(error) }
}

/// The end of a request in a failure: its final phase, and the response to send.
pub open spec fn failure(error: ConversionError) -> (PhaseValue, ActionValue) {
    finish(Err(error))
}

/// What comes of a valid request once the store has returned `rows`: what
/// the rows say of the store where they do not hold one rate for each
/// currency, else what the request resolves to.
pub open spec fn verdict(rows: Seq<RateValue>, request: RequestValue) -> Result<
    DecimalValue,
    ConversionError,
> {
    match store_verdict(rows, request.source, request.target) {
        Err(e) => Err(e),
        Ok(_) => resolution(rows, request),
    }
}

/// The response that reports what came of a request. A converted amount is
/// sent as a JSON number.
pub open spec fn response_to(outcome: Result<DecimalValue, ConversionError>) -> ResponseValue {
    match outcome {
        Ok(amount) => ResponseValue { status: STATUS_OK, body: notation(amount) },
        Err(e) => error_response(e),
    }
}

/// The end of a request: its final phase, and the response to send.
pub open spec fn finish(outcome: Result<DecimalValue, ConversionError>) -> (
    PhaseValue,
    ActionValue,
) {
    (
        match outcome {
            Ok(_) => PhaseValue::Succeeded,
            Err(e) => phase_of(e),
        },
        ActionValue::Respond(response_to(outcome)),
    )
}

/// The response to a request with these parameters where the store holds
/// `table`.
pub open spec fn answer(params: ParamsValue, table: Seq<RateValue>) -> ResponseValue {
    match request_of(params.money, params.from, params.to) {
        Err(e) => error_response(e),
        Ok(request) => response_to(verdict(table, request)),
    }
}

/// The step that the machine takes in `phase` on `event`: the next phase and
/// what it asks for.
///
/// - A final phase stays as it is and asks for nothing.
/// - Before that, a passed deadline ends the request with a timeout.
/// - A received request takes its parameters and goes on to parse them.
/// - Parsing ends the request where the input is invalid, else asks for the
///   rates of the two currencies.
/// - Resolving ends the request: with the [`verdict`] on the rows of the
///   store, with an internal error where the store failed.
/// - An event that the phase does not wait for ends the request with an
///   internal error.
pub open spec fn transition(phase: PhaseValue, event: EventValue) -> (PhaseValue, ActionValue) {
    if is_final(phase) {
        (phase, ActionValue::Nothing)
    } else if event is DeadlineElapsed {
        failure(ConversionError::Timeout)
    } else {
        match (phase, event) {
            (PhaseValue::Received, EventValue::Arrived(params)) => (
                PhaseValue::Parsing(params),
                ActionValue::Continue,
            ),
            (PhaseValue::Parsing(params), EventValue::Proceed) => match request_of(
                params.money,
                params.from,
                params.to,
            ) {
                Err(e) => failure(e),
                Ok(request) => (
                    PhaseValue::Resolving(request),
                    ActionValue::FetchRates { source: request.source, target: request.target },
                ),
            },
            (PhaseValue::Resolving(request), EventValue::Fetched(rows)) => finish(
                verdict(rows, request),
            ),
            _ => failure(ConversionError::InternalError),
        }
    }
}

/// Ends a request in a failure.
pub fn fail(error: ConversionError) -> (r: (Phase, Action))
    ensures
        (r.0@, r.1@) == failure(error),
{
    let response = Response { status: error.status(), body: error.message() };
    let phase = match error {
        ConversionError::InvalidInput => Phase::Rejected,
        ConversionError::RateNotFound(_) => Phase::NotFound,
        ConversionError::Timeout => Phase::TimedOut,
        ConversionError::InternalError => Phase::Failed,
    };
    (phase, Action::Respond(response))
}

/// Decides what comes of a valid request with the rows that the store
/// returned for it.
pub fn decide(rows: &Vec<Rate>, request: &ConversionRequest) -> (r: Result<
    ConversionResult,
    ConversionError,
>)
    ensures
        agrees(r, verdict(rates_of(rows@), request@)),
{
    match check_rows(rows, request.source(), request.target()) {
        Err(e) => Err(e),
        Ok(_) => resolve(rows, request),
    }
}

/// Ends a request with what came of it.
pub fn conclude(outcome: Result<ConversionResult, ConversionError>) -> (r: (Phase, Action))
    ensures
        match outcome {
            Ok(converted) => (r.0@, r.1@) == finish(
                Ok::<DecimalValue, ConversionError>(converted.amount@),
            ),
            Err(e) => (r.0@, r.1@) == finish(Err::<DecimalValue, ConversionError>(e)),
        },
{
    match outcome {
        Err(e) => fail(e),
        Ok(converted) => {
            let body: String = write_decimal(&converted.amount);
            (Phase::Succeeded, Action::Respond(Response { status: STATUS_OK, body }))
        },
    }
}

/// Takes one step of the machine.
pub fn step(phase: Phase, event: Event) -> (r: (Phase, Action))
    ensures
        (r.0@, r.1@) == transition(phase@, event@),
{
    match (phase, event) {
        (Phase::Succeeded, _) => (Phase::Succeeded, Action::Nothing),
        (Phase::Rejected, _) => (Phase::Rejected, Action::Nothing),
        (Phase::NotFound, _) => (Phase::NotFound, Action::Nothing),
        (Phase::TimedOut, _) => (Phase::TimedOut, Action::Nothing),
        (Phase::Failed, _) => (Phase::Failed, Action::Nothing),
        (_, Event::DeadlineElapsed) => fail(ConversionError::Timeout),
        (Phase::Received, Event::Arrived(params)) => (Phase::Parsing(params), Action::Continue),
        (Phase::Parsing(params), Event::Proceed) => {
            match parse_request(params.money.as_str(), params.from.as_str(), params.to.as_str()) {
                Err(e) => fail(e),
                Ok(request) => {
                    let source: String = request.source().clone();
                    let target: String = request.target().clone();
                    (Phase::Resolving(request), Action::FetchRates { source, target })
                },
            }
        },
        (Phase::Resolving(request), Event::Fetched(rows)) => conclude(decide(&rows, &request)),
        _ => fail(ConversionError::InternalError),
    }
}

/// The response that `action` carries, and that of an internal error where
/// it carries none.
pub fn response_of(action: Action) -> (response: Response)
    ensures
        match action@ {
            ActionValue::Respond(carried) => response@ == carried,
            _ => response@ == error_response(ConversionError::InternalError),
        },
{
    match action {
        Action::Respond(response) => response,
        _ => {
            let error = ConversionError::InternalError;
            Response { status: error.status(), body: error.message() }
        },
    }
}

/// Answers a request from rates held in memory: drives the machine from the
/// arrival of `params` to its response, reading from `table` when the
/// machine asks for rates.
pub fn handle(params: RawParams, table: &Vec<Rate>) -> (response: Response)
    ensures
        response@ == answer(params@, rates_of(table@)),
{
    let ghost asked = params@;
    let (phase, _) = step(Phase::Received, Event::Arrived(params));
    let (phase, action) = step(phase, Event::Proceed);
    match action {
        Action::FetchRates { source, target } => {
            let rows: Vec<Rate> = select_rows(table, &source, &target);
            proof {
                let request = request_of(asked.money, asked.from, asked.to)->Ok_0;
                lemma_selection_keeps_verdict(rates_of(table@), request);
            }
            let (_, action) = step(phase, Event::Fetched(rows));
            response_of(action)
        },
        other => response_of(other),
    }
}

/// What a store returns for the two currencies of a request leads to the
/// verdict that its whole table leads to.
pub proof fn lemma_selection_keeps_verdict(table: Seq<RateValue>, request: RequestValue)
    ensures
        verdict(selected(table, request.source, request.target), request) == verdict(
            table,
            request,
        ),
{
    lemma_selection_keeps_rates(table, request.source, request.target, request.source);
    lemma_selection_keeps_rates(table, request.source, request.target, request.target);
}

/// A converted amount is sent as a JSON number that reads back as the amount.
pub proof fn lemma_amount_is_sent_as_json(amount: DecimalValue)
    requires
        scale_in_range(amount.scale),
    ensures
        ({
            let response = response_to(Ok(amount));
            &&& response.status == 200
            &&& is_json_number(response.body)
            &&& text_value(response.body) == Some(amount)
        }),
{
    lemma_notation_reads_back(amount);
}

/// The actions that the machine asks for, one after the other, when it
/// starts in `phase` and `events` happen in this order.
pub open spec fn actions_of(phase: PhaseValue, events: Seq<EventValue>) -> Seq<ActionValue>
    decreases events.len(),
{
    if events.len() == 0 {
        Seq::empty()
    } else {
        let (next, action) = transition(phase, events.first());
        seq![action] + actions_of(next, events.drop_first())
    }
}

/// The machine asks for one action on each event.
pub proof fn lemma_one_action_each(phase: PhaseValue, events: Seq<EventValue>)
    ensures
        actions_of(phase, events).len() == events.len(),
    decreases events.len(),
{
    if events.len() > 0 {
        lemma_one_action_each(transition(phase, events.first()).0, events.drop_first());
    }
}

/// Whatever happens and in whatever order, a request is answered at most
/// once: after the step that asks for a response, every step asks for
/// nothing.
pub proof fn lemma_one_response_at_most(phase: PhaseValue, events: Seq<EventValue>, i: int, j: int)
    requires
        0 <= i < j < events.len(),
        is_final(phase) || actions_of(phase, events)[i] is Respond,
    ensures
        actions_of(phase, events).len() == events.len(),
        actions_of(phase, events)[j] is Nothing,
    decreases events.len(),
{
    let (next, action) = transition(phase, events.first());
    let rest = events.drop_first();
    let later = actions_of(next, rest);
    lemma_one_action_each(phase, events);
    lemma_one_action_each(next, rest);
    assert(actions_of(phase, events) == seq![action] + later);
    assert(actions_of(phase, events)[j] == later[j - 1]);
    if is_final(phase) || i == 0 {
        assert(is_final(next));
        if j == 1 {
            lemma_one_action_each(transition(next, rest.first()).0, rest.drop_first());
            assert(later[0] == transition(next, rest.first()).1);
        } else {
            lemma_one_response_at_most(next, rest, 0, j - 1);
        }
    } else {
        assert(actions_of(phase, events)[i] == later[i - 1]);
        lemma_one_response_at_most(next, rest, i - 1, j - 1);
    }
}

/// A final phase is final: whatever happens then, the phase stays and
/// nothing more is asked for.
pub proof fn lemma_final_phase_stays(phase: PhaseValue, event: EventValue)
    requires
        is_final(phase),
    ensures
        transition(phase, event) == (phase, ActionValue::Nothing),
{
}

/// A step ends the request exactly where it asks for a response to be sent,
/// and the status of that response tells the final phase.
pub proof fn lemma_response_ends_request(phase: PhaseValue, event: EventValue)
    requires
        !is_final(phase),
    ensures
        ({
            let (next, action) = transition(phase, event);
            &&& !(action is Nothing)
            &&& is_final(next) <==> action is Respond
            &&& action matches ActionValue::Respond(response) ==> {
                &&& next is Succeeded <==> response.status == 200
                &&& next is Rejected <==> response.status == 400
                &&& next is NotFound <==> response.status == 404
                &&& next is TimedOut <==> response.status == 408
                &&& next is Failed <==> response.status == 500
            }
        }),
{
}

/// Once the deadline has passed, a request that is not over ends with a
/// timeout, whatever it was waiting for.
pub proof fn lemma_deadline_ends_request(phase: PhaseValue)
    requires
        !is_final(phase),
    ensures
        transition(phase, EventValue::DeadlineElapsed) == (
            PhaseValue::TimedOut,
            ActionValue::Respond(error_response(ConversionError::Timeout)),
        ),
        error_response(ConversionError::Timeout).status == 408,
{
}

/// A request for a currency of which the store has no rate ends as not
/// found, whatever else the rows hold.
pub proof fn lemma_unknown_currency_is_not_found(rows: Seq<RateValue>, request: RequestValue)
    requires
        missing(rows, request.source) || missing(rows, request.target),
    ensures
        ({
            let (next, action) = transition(
                PhaseValue::Resolving(request),
                EventValue::Fetched(rows),
            );
            &&& verdict(rows, request) matches Err(ConversionError::RateNotFound(_))
            &&& next is NotFound
            &&& action matches ActionValue::Respond(response) && response.status == 404
        }),
{
}

} // verus!
