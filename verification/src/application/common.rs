use vstd::prelude::*;

verus! {

/// The kinds of render settings.
#[derive(Clone, Copy, PartialEq, Eq, Hash, Debug, Structural)]
pub enum RenderSettingType {
    RedrawMode,
}

/// A render setting with its value.
#[derive(Clone, Copy, PartialEq, Eq, Hash, Debug, Structural)]
pub enum RenderSetting {
    RedrawMode(RedrawMode),
}

impl RenderSetting {
    /// The kind of this setting.
    pub fn get_type(&self) -> (kind: RenderSettingType)
        ensures
            self is RedrawMode ==> kind == RenderSettingType::RedrawMode,
    {
        match self {
            RenderSetting::RedrawMode(_) => RenderSettingType::RedrawMode,
        }
    }
}

/// The kinds of user interface settings.
#[derive(Clone, Copy, PartialEq, Eq, Hash, Debug, Structural)]
pub enum UiSettingType {
    InputMode,
    KeyboardBindings,
    WindowMode,
}

/// When the renderer redraws.
#[derive(Clone, Copy, PartialEq, Eq, Hash, Debug, Structural)]
pub enum RedrawMode {
    OnRequest,
    FpsLimit(usize),
    NoLimit,
}

/// How keyboard input reaches the application.
#[derive(Clone, Copy, PartialEq, Eq, Hash, Debug, Structural)]
pub enum InputMode {
    Direct,
    MappedToInstruction,
}

/// A command to the renderer.
#[derive(Clone, Copy, PartialEq, Eq, Debug, Structural)]
pub enum RenderDecree {
    Noop,
    ArenaUpdate,
    DisplayFps,
    StartRender,
    StopRender,
    ReinitAdapter,
    SetSurfaceSize(u32, u32),
    Terminate,
}

impl Default for RenderDecree {
    fn default() -> (decree: Self)
        ensures
            decree == RenderDecree::Noop,
    {
        RenderDecree::Noop
    }
}

/// The kinds of user interface commands.
#[derive(Clone, Copy, PartialEq, Eq, Debug, Structural)]
pub enum UiDecreeType {
    Noop,
    ExitApplication,
    UpdateSetting,
}

/// The kinds of host settings.
#[derive(Clone, Copy, PartialEq, Eq, Hash, Debug, Structural)]
pub enum HostSettingType {
    GameSpeedFactor,
}

/// A host setting with its value.
#[derive(Clone, Copy, PartialEq, Eq, Hash, Debug, Structural)]
pub enum HostSetting {
    GameSpeedFactor(i8),
}

/// What an acknowledgement is for.
#[derive(Clone, Copy, PartialEq, Eq, Debug, Structural)]
pub enum AckKey {
    /// Nothing to acknowledge
    NoKey,
    Render,
}

/// The slot of the acknowledgement table that belongs to `key`.
pub open spec fn ack_slot(key: AckKey) -> int {
    match key {
        AckKey::NoKey => 0,
        AckKey::Render => 1,
    }
}

impl AckKey {
    /// The slot of the acknowledgement table that belongs to this key.
    pub fn slot(&self) -> (i: usize)
        ensures
            i == ack_slot(*self),
    {
        match self {
            AckKey::NoKey => 0,
            AckKey::Render => 1,
        }
    }

    /// Takes in acknowledgement `ack` for `key`: when the table holds a pending
    /// acknowledgement for the key and `ack` is that one, the entry is cleared;
    /// otherwise the table stays as it is.
    pub fn check_ack(key: AckKey, ack_map: &mut [usize; 2], ack: usize)
        ensures
            ({
                let i = ack_slot(key);
                if old(ack_map)[i] != 0 && old(ack_map)[i] == ack {
                    final(ack_map)@ == old(ack_map)@.update(i, 0)
                } else {
                    final(ack_map)@ == old(ack_map)@
                }
            }),
    {
        let i = key.slot();
        if ack_map[i] != 0 {
            if ack_map[i] == ack {
                ack_map[i] = 0;
            }
        }
    }
}

/// A key press, as the application sees it.
#[derive(Clone, Copy, PartialEq, Eq, Debug, Structural)]
pub enum KeyPress {
    Placeholder,
}

impl KeyPress {
    pub fn placeholder() -> (k: Self)
        ensures
            k == KeyPress::Placeholder,
    {
        KeyPress::Placeholder
    }
}

/// How the window is shown.
#[derive(Clone, Copy, PartialEq, Eq, Debug, Structural)]
pub enum WindowMode {
    Fullscreen,
    WindowedFullscreen,
    Windowed { x: u32, y: u32 },
}

/// What the application as a whole is doing.
#[derive(Clone, Copy, PartialEq, Eq, Debug, Structural)]
pub enum ApplicationActivity {
    Playing,
    Loading,
    Menu,
    Editor,
    Launching,
    Exiting,
}

/// What the game is doing.
#[derive(Clone, Copy, PartialEq, Eq, Debug, Structural)]
pub enum GameActivity {
    /// For the world map kind of travel
    Travel,
    /// The player character is at some location
    Location,
    /// The player character is in an encounter
    Encounter,
    /// There is a scripted scene playing, player has limited control
    Cutscene,
    /// Atypical interactive encounter
    Interaction,
    /// A menu
    Menu,
    /// Development mode
    Developer,
}

/// A change to a resource of a game object, and when in the chain of changes it applies.
#[derive(Clone, Copy, PartialEq, Eq, Debug)]
pub struct StatModifier {
    pub target_resource: GameResourceType,
    pub target_modifier: GameStatModifier,
    pub modifier_timing: StatModifierPriority,
}

/// The resources a game object can have.
#[derive(Clone, Copy, PartialEq, Eq, Debug, Structural)]
pub enum GameResourceType {
    Health,
    Armor,
    Mana,
    Energy,
    Experience,
    Level,
    Intelligence,
    Strength,
    Agility,
    Wisdom,
    Charisma,
}

/// The aspects of a game resource.
#[derive(Clone, Copy, PartialEq, Eq, Debug, Structural)]
pub enum GameResourceAspectType {
    PassiveRegenRate,
    BaseMaxValue,
    EffectiveMaxValue,
    CurrentValue,
    ReceiveMultiplier,
    SpendMultiplier,
}

/// An aspect of a game resource with its value.
#[derive(Clone, Copy, PartialEq, Eq, Debug, Structural)]
pub enum GameResourceAspect {
    PassiveRegenRate(isize),
    BaseMaxValue(isize),
    EffectiveMaxValue(isize),
    CurrentValue(isize),
    ReceiveMultiplier(isize),
    SpendMultiplier(isize),
}

impl GameResourceAspect {
    /// The kind of this aspect.
    pub fn get_type(&self) -> (kind: GameResourceAspectType)
        ensures
            kind == match *self {
                GameResourceAspect::PassiveRegenRate(_) => GameResourceAspectType::PassiveRegenRate,
                GameResourceAspect::BaseMaxValue(_) => GameResourceAspectType::BaseMaxValue,
                GameResourceAspect::EffectiveMaxValue(_) => GameResourceAspectType::EffectiveMaxValue,
                GameResourceAspect::CurrentValue(_) => GameResourceAspectType::CurrentValue,
                GameResourceAspect::ReceiveMultiplier(_) => GameResourceAspectType::ReceiveMultiplier,
                GameResourceAspect::SpendMultiplier(_) => GameResourceAspectType::SpendMultiplier,
            },
    {
        match self {
            GameResourceAspect::PassiveRegenRate(_) => GameResourceAspectType::PassiveRegenRate,
            GameResourceAspect::BaseMaxValue(_) => GameResourceAspectType::BaseMaxValue,
            GameResourceAspect::EffectiveMaxValue(_) => GameResourceAspectType::EffectiveMaxValue,
            GameResourceAspect::CurrentValue(_) => GameResourceAspectType::CurrentValue,
            GameResourceAspect::ReceiveMultiplier(_) => GameResourceAspectType::ReceiveMultiplier,
            GameResourceAspect::SpendMultiplier(_) => GameResourceAspectType::SpendMultiplier,
        }
    }
}

/// Where in the chain of modifiers a modifier applies.
#[derive(Clone, Copy, PartialEq, Eq, Debug, Structural)]
pub enum StatModifierPriority {
    Base,
    /// The higher the number, the later the modifier will be applied in the chain of modifiers
    Delay(usize),
}

/// How a modifier changes a resource aspect.
#[derive(Clone, Copy, PartialEq, Eq, Debug, Structural)]
pub enum GameStatModifier {
    AddPercentage(GameResourceAspect, isize),
    AddValue(GameResourceAspect, isize),
    MultiplyPercentage(GameResourceAspect, isize),
}

/// Flags of game objects.
#[derive(Clone, Copy, PartialEq, Eq, Debug, Structural)]
pub enum GameObjectFlags {
    Collision,
    Interactive,
}

/// Properties of game items.
#[derive(Clone, Copy, PartialEq, Eq, Debug, Structural)]
pub enum GameItemProperty {
    Icon,
    Slot,
    Requirements,
    Custom,
    CarryEffect,
    EquipEffect,
}

} // verus!
