use alaquint_comps::motor::{
    after_delivery, lidar_orders, Delivery, ErrandStep, Motor, MotorAction, MotorState, MOTOR_RPM,
};

fn ask_name(m: &mut MotorState) -> String {
    match m.handle::<u8, u16>(Motor::GetName { reply: 7 }) {
        MotorAction::SendName { reply, name } => {
            assert_eq!(reply, 7);
            name
        }
        _ => panic!("expected a name"),
    }
}

#[test]
fn motor_starts_as_blabbers() {
    let mut m = MotorState::new();
    assert_eq!(m.name(), "blabbers");
    assert_eq!(ask_name(&mut m), "blabbers");
    assert_eq!(m.name(), "blabbers");
}

#[test]
fn motor_reports_fixed_rpm() {
    let mut m = MotorState::new();
    match m.handle::<&str, ()>(Motor::GetRpm { reply: "rx" }) {
        MotorAction::SendRpm { reply, rpm } => {
            assert_eq!(reply, "rx");
            assert_eq!(rpm, 10);
            assert_eq!(rpm, MOTOR_RPM);
        }
        _ => panic!("expected an rpm"),
    }
    assert_eq!(m.name(), "blabbers");
}

#[test]
fn motor_name_read_after_write() {
    let mut m = MotorState::new();
    assert!(matches!(
        m.handle::<u8, u16>(Motor::SetName("wheel".to_string())),
        MotorAction::Renamed
    ));
    assert_eq!(m.name(), "wheel");
    assert_eq!(ask_name(&mut m), "wheel");
    assert!(matches!(
        m.handle::<u8, u16>(Motor::SetName(String::new())),
        MotorAction::Renamed
    ));
    assert_eq!(ask_name(&mut m), "");
}

#[test]
fn lidar_errand_orders() {
    let orders = lidar_orders(1u8, 2u16);
    assert_eq!(orders.len(), 3);
    assert_eq!(orders[0].delivery, Delivery::Message);
    assert!(matches!(&orders[0].msg, Motor::SetName(n) if n == "BRODA"));
    assert_eq!(orders[1].delivery, Delivery::Request);
    assert!(matches!(orders[1].msg, Motor::GetRpm { reply: 1 }));
    assert_eq!(orders[2].delivery, Delivery::Request);
    assert!(matches!(orders[2].msg, Motor::GetName { reply: 2 }));
}

#[test]
fn lidar_errand_against_motor() {
    let mut m = MotorState::new();
    let mut answers = Vec::new();
    for order in lidar_orders(1u8, 2u16) {
        answers.push(m.handle(order.msg));
    }
    assert!(matches!(answers[0], MotorAction::Renamed));
    assert!(matches!(answers[1], MotorAction::SendRpm { reply: 1, rpm: 10 }));
    assert!(matches!(&answers[2], MotorAction::SendName { reply: 2, name } if name == "BRODA"));
}

#[test]
fn delivery_steps() {
    assert_eq!(after_delivery(Delivery::Message, true), ErrandStep::Continue);
    assert_eq!(after_delivery(Delivery::Message, false), ErrandStep::Continue);
    assert_eq!(after_delivery(Delivery::Request, true), ErrandStep::Continue);
    assert_eq!(after_delivery(Delivery::Request, false), ErrandStep::Abort);
}

#[test]
fn name_answer_is_last_set_name() {
    let mut m = MotorState::new();
    let msgs: Vec<Motor<u8, u16>> = vec![
        Motor::GetRpm { reply: 1 },
        Motor::SetName("first".to_string()),
        Motor::GetName { reply: 2 },
        Motor::SetName("second".to_string()),
        Motor::GetRpm { reply: 3 },
    ];
    for msg in msgs {
        m.handle(msg);
    }
    assert_eq!(ask_name(&mut m), "second");
    let mut fresh = MotorState::new();
    fresh.handle::<u8, u16>(Motor::GetRpm { reply: 9 });
    assert_eq!(ask_name(&mut fresh), "blabbers");
}
