//! The motor actor: a name it can be asked for or given, and a fixed speed it
//! reports; and the errand of the lidar reader, which talks to the motor.

use vstd::prelude::*;

verus! {

/// The speed, in revolutions per minute, that the motor reports.
pub const MOTOR_RPM: i32 = 10;

/// A message to the motor actor. `R` and `N` are the channels on which the
/// motor answers a question about its speed and its name.
#[allow(inconsistent_fields)]
pub enum Motor<R, N> {
    GetRpm { reply: R },
    GetName { reply: N },
    SetName(String),
}

/// What the motor does in answer to a message.
#[allow(inconsistent_fields)]
pub enum MotorAction<R, N> {
    /// Send `rpm` on `reply`.
    SendRpm { reply: R, rpm: i32 },
    /// Send `name` on `reply`.
    SendName { reply: N, name: String },
    /// The motor took a new name; nothing is sent.
    Renamed,
}

/// What the motor answers, as a mathematical value.
pub enum MotorAnswer<R, N> {
    Rpm(R, i32),
    Name(N, Seq<char>),
    Nothing,
}

impl<R, N> MotorAction<R, N> {
    /// The answer this action sends.
    pub open spec fn answer(self) -> MotorAnswer<R, N> {
        match self {
            MotorAction::SendRpm { reply, rpm } => MotorAnswer::Rpm(reply, rpm),
            MotorAction::SendName { reply, name } => MotorAnswer::Name(reply, name@),
            MotorAction::Renamed => MotorAnswer::Nothing,
        }
    }
}

/// The motor's name after it handled `msg` while it was called `name`.
pub open spec fn next_name<R, N>(name: Seq<char>, msg: Motor<R, N>) -> Seq<char> {
    match msg {
        Motor::SetName(new_name) => new_name@,
        _ => name,
    }
}

/// The motor's answer to `msg` while it is called `name`.
pub open spec fn answer_to<R, N>(name: Seq<char>, msg: Motor<R, N>) -> MotorAnswer<R, N> {
    match msg {
        Motor::GetRpm { reply } => MotorAnswer::Rpm(reply, MOTOR_RPM),
        Motor::GetName { reply } => MotorAnswer::Name(reply, name),
        Motor::SetName(_) => MotorAnswer::Nothing,
    }
}

/// The name a motor starts with.
pub open spec fn initial_motor_name() -> Seq<char> {
    "blabbers"@
}

/// The state of the motor actor between two messages.
pub struct MotorState {
    name: String,
}

impl View for MotorState {
    type V = Seq<char>;

    /// The motor's current name.
    closed spec fn view(&self) -> Seq<char> {
        self.name@
    }
}

impl MotorState {
    /// A motor as it starts, named "blabbers".
    pub fn new() -> (m: MotorState)
        ensures
            m@ == initial_motor_name(),
    {
        MotorState { name: "blabbers".to_string() }
    }

    /// The motor's current name.
    pub fn name(&self) -> (n: &String)
        ensures
            n@ == self@,
    {
        &self.name
    }

    /// Handles one message: a question is answered from the current state,
    /// `SetName` replaces the name.
    pub fn handle<R, N>(&mut self, msg: Motor<R, N>) -> (a: MotorAction<R, N>)
        ensures
            final(self)@ == next_name(old(self)@, msg),
            a.answer() == answer_to(old(self)@, msg),
    {
        match msg {
            Motor::GetRpm { reply } => MotorAction::SendRpm { reply, rpm: MOTOR_RPM },
            Motor::GetName { reply } => MotorAction::SendName { reply, name: self.name.clone() },
            Motor::SetName(new_name) => {
                self.name = new_name;
                MotorAction::Renamed
            },
        }
    }
}

/// After the motor is given a name, asking for its name answers that name.
pub proof fn lemma_name_read_after_write<R, N>(name: Seq<char>, new_name: String, reply: N)
    ensures
        answer_to(
            next_name(name, Motor::<R, N>::SetName(new_name)),
            Motor::<R, N>::GetName { reply },
        ) == MotorAnswer::<R, N>::Name(reply, new_name@),
{
}

/// Questions leave the motor's name as it was.
pub proof fn lemma_questions_keep_name<R, N>(name: Seq<char>, msg: Motor<R, N>)
    requires
        !(msg is SetName),
    ensures
        next_name(name, msg) == name,
{
}

/// The motor reports the same speed whatever its state.
pub proof fn lemma_rpm_constant<R, N>(name1: Seq<char>, name2: Seq<char>, reply: R)
    ensures
        answer_to(name1, Motor::<R, N>::GetRpm { reply }) == answer_to(
            name2,
            Motor::<R, N>::GetRpm { reply },
        ),
        answer_to(name1, Motor::<R, N>::GetRpm { reply }) == MotorAnswer::<R, N>::Rpm(
            reply,
            MOTOR_RPM,
        ),
{
}

/// How a message of the lidar reader is delivered.
#[derive(Clone, Copy, PartialEq, Eq, Structural, Debug)]
pub enum Delivery {
    /// Fire and forget: a missing recipient is ignored.
    Message,
    /// A missing recipient ends the errand with an error.
    Request,
}

/// What the lidar reader does after handing over one message.
#[derive(Clone, Copy, PartialEq, Eq, Structural, Debug)]
pub enum ErrandStep {
    /// Go on with the next message.
    Continue,
    /// End the errand with the delivery's error.
    Abort,
}

/// The step after a message delivered as `delivery` was (`delivered`) or was
/// not handed to the motor: a failed request ends the errand, a failed
/// fire-and-forget message is ignored.
pub fn after_delivery(delivery: Delivery, delivered: bool) -> (step: ErrandStep)
    ensures
        step == (if delivery == Delivery::Request && !delivered {
            ErrandStep::Abort
        } else {
            ErrandStep::Continue
        }),
{
    match delivery {
        Delivery::Message => ErrandStep::Continue,
        Delivery::Request => if delivered {
            ErrandStep::Continue
        } else {
            ErrandStep::Abort
        },
    }
}

/// One message of the lidar reader's errand, with how it is delivered.
pub struct LidarOrder<R, N> {
    pub delivery: Delivery,
    pub msg: Motor<R, N>,
}

/// The name the lidar reader gives the motor.
pub open spec fn lidar_motor_name() -> Seq<char> {
    "BRODA"@
}

/// The lidar reader's errand: rename the motor to "BRODA" (a message), then
/// ask for its speed and for its name (requests), in that order.
pub fn lidar_orders<R, N>(rpm_reply: R, name_reply: N) -> (orders: Vec<LidarOrder<R, N>>)
    ensures
        orders@.len() == 3,
        orders@[0].delivery == Delivery::Message,
        (orders@[0].msg matches Motor::SetName(n) && n@ == lidar_motor_name()),
        orders@[1].delivery == Delivery::Request,
        orders@[1].msg == (Motor::<R, N>::GetRpm { reply: rpm_reply }),
        orders@[2].delivery == Delivery::Request,
        orders@[2].msg == (Motor::<R, N>::GetName { reply: name_reply }),
{
    let mut orders: Vec<LidarOrder<R, N>> = Vec::new();
    orders.push(LidarOrder { delivery: Delivery::Message, msg: Motor::SetName("BRODA".to_string()) });
    orders.push(LidarOrder { delivery: Delivery::Request, msg: Motor::GetRpm { reply: rpm_reply } });
    orders.push(
        LidarOrder { delivery: Delivery::Request, msg: Motor::GetName { reply: name_reply } },
    );
    orders
}

/// The answers a motor called `name` gives to `msgs`, handled in order.
pub open spec fn answers_to<R, N>(name: Seq<char>, msgs: Seq<Motor<R, N>>) -> Seq<MotorAnswer<R, N>>
    decreases msgs.len(),
{
    if msgs.len() == 0 {
        Seq::empty()
    } else {
        seq![answer_to(name, msgs[0])] + answers_to(next_name(name, msgs[0]), msgs.drop_first())
    }
}

/// The motor's name after it handled `msgs` in order, starting as `name`.
pub open spec fn name_after<R, N>(name: Seq<char>, msgs: Seq<Motor<R, N>>) -> Seq<char>
    decreases msgs.len(),
{
    if msgs.len() == 0 {
        name
    } else {
        name_after(next_name(name, msgs[0]), msgs.drop_first())
    }
}

/// The name given by the last `SetName` among `msgs`, or `name` where there is none.
pub open spec fn last_set_name<R, N>(name: Seq<char>, msgs: Seq<Motor<R, N>>) -> Seq<char>
    decreases msgs.len(),
{
    if msgs.len() == 0 {
        name
    } else {
        match msgs.last() {
            Motor::SetName(new_name) => new_name@,
            _ => last_set_name(name, msgs.drop_last()),
        }
    }
}

/// Handling one more message after `msgs` moves the name by that message alone,
/// and adds that message's answer after the answers to `msgs`.
proof fn lemma_one_more_message<R, N>(name: Seq<char>, msgs: Seq<Motor<R, N>>, m: Motor<R, N>)
    ensures
        name_after(name, msgs.push(m)) == next_name(name_after(name, msgs), m),
        answers_to(name, msgs.push(m)) == answers_to(name, msgs).push(
            answer_to(name_after(name, msgs), m),
        ),
    decreases msgs.len(),
{
    if msgs.len() == 0 {
        assert(msgs.push(m).drop_first() =~= Seq::<Motor<R, N>>::empty());
        assert(msgs.push(m)[0] == m);
        assert(name_after(next_name(name, m), Seq::<Motor<R, N>>::empty()) == next_name(name, m));
        assert(answers_to(next_name(name, m), Seq::<Motor<R, N>>::empty()) =~= Seq::empty());
        assert(answers_to(name, msgs.push(m)) =~= seq![answer_to(name, m)]);
        assert(answers_to(name, msgs) =~= Seq::empty());
    } else {
        assert(msgs.push(m).drop_first() =~= msgs.drop_first().push(m));
        assert(msgs.push(m)[0] == msgs[0]);
        lemma_one_more_message(next_name(name, msgs[0]), msgs.drop_first(), m);
        assert(answers_to(name, msgs.push(m)) =~= answers_to(name, msgs).push(
            answer_to(name_after(name, msgs), m),
        ));
    }
}

/// The motor's name after a run of messages is the name of the last `SetName`
/// among them, or the name it had before where there is none.
pub proof fn lemma_name_after_is_last_set_name<R, N>(name: Seq<char>, msgs: Seq<Motor<R, N>>)
    ensures
        name_after(name, msgs) == last_set_name(name, msgs),
    decreases msgs.len(),
{
    if msgs.len() > 0 {
        let init = msgs.drop_last();
        assert(init.push(msgs.last()) =~= msgs);
        lemma_one_more_message(name, init, msgs.last());
        lemma_name_after_is_last_set_name(name, init);
    }
}

/// Whatever messages a motor handled before, asking for its name is answered,
/// on the asker's channel, with the name of the last `SetName` among them, or
/// "blabbers" where there was none; one answer comes per message.
pub proof fn lemma_name_answer_after_messages<R, N>(msgs: Seq<Motor<R, N>>, reply: N)
    ensures
        answers_to(initial_motor_name(), msgs.push(Motor::<R, N>::GetName { reply })).len()
            == msgs.len() + 1,
        answers_to(initial_motor_name(), msgs.push(Motor::<R, N>::GetName { reply })).last()
            == MotorAnswer::<R, N>::Name(reply, last_set_name(initial_motor_name(), msgs)),
{
    lemma_answers_len(initial_motor_name(), msgs);
    lemma_one_more_message(initial_motor_name(), msgs, Motor::<R, N>::GetName { reply });
    lemma_name_after_is_last_set_name(initial_motor_name(), msgs);
}

/// There is one answer per message.
pub proof fn lemma_answers_len<R, N>(name: Seq<char>, msgs: Seq<Motor<R, N>>)
    ensures
        answers_to(name, msgs).len() == msgs.len(),
    decreases msgs.len(),
{
    if msgs.len() > 0 {
        lemma_answers_len(next_name(name, msgs[0]), msgs.drop_first());
    }
}

/// Whatever the motor was called, the lidar reader's errand makes it answer
/// nothing to the renaming, its fixed speed to the first question and the new
/// name "BRODA" to the second.
pub proof fn lemma_lidar_errand<R, N>(
    name: Seq<char>,
    orders: Seq<LidarOrder<R, N>>,
    rpm_reply: R,
    name_reply: N,
)
    requires
        orders.len() == 3,
        (orders[0].msg matches Motor::SetName(n) && n@ == lidar_motor_name()),
        orders[1].msg == (Motor::<R, N>::GetRpm { reply: rpm_reply }),
        orders[2].msg == (Motor::<R, N>::GetName { reply: name_reply }),
    ensures
        answers_to(name, orders.map_values(|o: LidarOrder<R, N>| o.msg)) == seq![
            MotorAnswer::<R, N>::Nothing,
            MotorAnswer::<R, N>::Rpm(rpm_reply, MOTOR_RPM),
            MotorAnswer::<R, N>::Name(name_reply, lidar_motor_name()),
        ],
{
    let msgs = orders.map_values(|o: LidarOrder<R, N>| o.msg);
    let n1 = next_name(name, msgs[0]);
    let n2 = next_name(n1, msgs[1]);
    let n3 = next_name(n2, msgs[2]);
    assert(msgs.drop_first().drop_first().drop_first() =~= Seq::<Motor<R, N>>::empty());
    assert(answers_to(n3, msgs.drop_first().drop_first().drop_first()) =~= Seq::empty());
    assert(answers_to(n2, msgs.drop_first().drop_first()) =~= seq![answer_to(n2, msgs[2])]);
    assert(answers_to(n1, msgs.drop_first()) =~= seq![answer_to(n1, msgs[1]), answer_to(n2, msgs[2])]);
    assert(answers_to(name, msgs) =~= seq![answer_to(name, msgs[0]), answer_to(n1, msgs[1]), answer_to(n2, msgs[2])]);
}

} // verus!
