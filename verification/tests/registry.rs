use burst::BurstBuilder;
use burst::Error;
use burst::MachineSetup;

#[test]
fn machine_setup_keeps_fields() {
    let s = MachineSetup::new("t2.micro", "ami-123");
    assert_eq!(s.instance_type, "t2.micro");
    assert_eq!(s.ami, "ami-123");
}

#[test]
fn add_set_rejects_zero_count() {
    let mut b = BurstBuilder::default();
    let r = b.add_set("web", 0, MachineSetup::new("t2.micro", "ami-123"));
    assert_eq!(r, Err(Error::InvalidDescriptor));
    assert_eq!(b.descriptors.len(), 0);
}

#[test]
fn add_set_registers_group() {
    let mut b = BurstBuilder::default();
    assert!(b.add_set("web", 2, MachineSetup::new("t2.micro", "ami-123")).is_ok());
    assert_eq!(b.descriptors.len(), 1);
    assert_eq!(b.descriptors[0].0, "web");
    assert_eq!(b.descriptors[0].1.instance_type, "t2.micro");
    assert_eq!(b.descriptors[0].1.ami, "ami-123");
    assert_eq!(b.descriptors[0].2, 2);
}

#[test]
fn add_set_last_write_wins() {
    let mut b = BurstBuilder::default();
    assert!(b.add_set("web", 2, MachineSetup::new("t2.micro", "ami-123")).is_ok());
    assert!(b.add_set("db", 1, MachineSetup::new("m4.large", "ami-777")).is_ok());
    assert!(b.add_set("web", 3, MachineSetup::new("c5.large", "ami-456")).is_ok());
    // still exactly one entry named "web", holding the second registration
    assert_eq!(b.descriptors.len(), 2);
    let webs: Vec<usize> = (0..b.descriptors.len())
        .filter(|&i| b.descriptors[i].0 == "web")
        .collect();
    assert_eq!(webs.len(), 1);
    let w = webs[0];
    assert_eq!(b.descriptors[w].1.instance_type, "c5.large");
    assert_eq!(b.descriptors[w].1.ami, "ami-456");
    assert_eq!(b.descriptors[w].2, 3);
}

#[test]
fn set_max_duration_converts_hours_to_minutes() {
    let mut b = BurstBuilder::default();
    assert_eq!(b.max_duration_mins, 60);
    assert!(b.set_max_duration(2).is_ok());
    assert_eq!(b.max_duration_mins, 120);
}

#[test]
fn set_max_duration_rejects_zero() {
    let mut b = BurstBuilder::default();
    assert!(b.set_max_duration(2).is_ok());
    let r = b.set_max_duration(0);
    assert_eq!(r, Err(Error::InvalidConfig));
    assert_eq!(b.max_duration_mins, 120);
}
