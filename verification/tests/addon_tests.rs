use episodic::OmApplyAddon;
use episodic::{
    OmCommand, OmReflectionCommand, OmReflectionCommandType, ReflectionAction,
    reflection_command_from_action,
};

#[test]
fn reflection_command_builder_maps_reflection_action_to_command() {
    let at = "2026-02-13T00:00:00Z";
    let buffer = reflection_command_from_action(ReflectionAction::Buffer, "session:s1", 3, at)
        .expect("buffer command");
    let reflect = reflection_command_from_action(ReflectionAction::Reflect, "session:s1", 3, at)
        .expect("reflect command");

    assert_eq!(
        buffer,
        OmCommand::EnqueueReflection(OmReflectionCommand {
            command_type: OmReflectionCommandType::BufferRequested,
            scope_key: "session:s1".to_string(),
            expected_generation: 3,
            requested_at_rfc3339: at.to_string(),
        })
    );
    assert_eq!(
        reflect,
        OmCommand::EnqueueReflection(OmReflectionCommand {
            command_type: OmReflectionCommandType::ReflectRequested,
            scope_key: "session:s1".to_string(),
            expected_generation: 3,
            requested_at_rfc3339: at.to_string(),
        })
    );
    assert_eq!(
        reflection_command_from_action(ReflectionAction::NoAction, "session:s1", 3, at),
        None
    );
}

#[test]
fn reflection_command_is_refused_for_blank_scope_key_or_invalid_timestamp() {
    assert_eq!(
        reflection_command_from_action(ReflectionAction::Buffer, "   ", 3, "2026-02-13T00:00:00Z"),
        None
    );
    assert_eq!(
        reflection_command_from_action(ReflectionAction::Buffer, "session:s1", 3, "yesterday"),
        None
    );
}

struct CountingApplyAddon {
    applied: usize,
}

impl OmApplyAddon for CountingApplyAddon {
    type Error = ();

    fn apply(&mut self, _command: OmCommand) -> Result<(), Self::Error> {
        self.applied = self.applied.saturating_add(1);
        Ok(())
    }
}

#[test]
fn apply_addon_receives_built_command() {
    let mut addon = CountingApplyAddon { applied: 0 };
    let command = reflection_command_from_action(
        ReflectionAction::Reflect,
        " session:s1 ",
        2,
        "2026-02-13T00:00:00Z",
    )
    .expect("command");
    assert_eq!(addon.apply(command), Ok(()));
    assert_eq!(addon.applied, 1);
}
