//! Colour themes for syntax highlighting: for each group of syntax elements,
//! the colours and the emphasis that a theme gives it.

use vstd::prelude::*;

verus! {

/// A colour, by its red, green and blue parts.
#[derive(Debug, Clone, Copy, PartialEq, Eq, Structural)]
pub struct Rgb {
    pub r: u8,
    pub g: u8,
    pub b: u8,
}

/// How a theme shows a group: colours where it sets them, and emphasis.
#[derive(Debug, Clone, Copy, PartialEq, Eq)]
pub struct Style {
    pub fg_color: Option<Rgb>,
    pub bg_color: Option<Rgb>,
    pub is_bold: bool,
    pub is_italic: bool,
    pub is_underline: bool,
}

/// The style of text that no group covers: both colours are set.
#[derive(Debug, Clone, Copy, PartialEq, Eq)]
pub struct ResolvedStyle {
    pub fg_color: Rgb,
    pub bg_color: Rgb,
    pub is_bold: bool,
    pub is_italic: bool,
    pub is_underline: bool,
}

/// A group of syntax elements that are highlighted alike.
#[derive(Debug, Clone, Copy, PartialEq, Eq, Structural)]
pub enum HighlightGroup {
    CtrlFlowKeyword,
    OtherKeyword,
    FunctionDef,
    FunctionCall,
    TyDef,
    TyUse,
    InterfaceDef,
    InterfaceUse,
    PrimitiveTy,
    VariableDef,
    VariableUse,
    FunctionParam,
    ConstantDef,
    ConstantUse,
    Number,
    Boolean,
    ModuleDef,
    ModuleUse,
    MacroDef,
    MacroUse,
    PreProc,
    Attribute,
    String,
    StringDelimiter,
    Character,
    CharacterDelimiter,
    SpecialIdentDef,
    SpecialIdentUse,
    SpecialIdentDefSigil,
    SpecialIdentUseSigil,
    Comment,
    DocComment,
    MemberOper,
    PointerOper,
    AssignOper,
    Delimiter,
    Separator,
    Terminator,
    Error,
    MemberDef,
    MemberUse,
    BinaryOper,
    OtherOper,
}

/// A colour theme.
pub trait Theme {
    /// The style of text outside every group.
    spec fn spec_default_style(&self) -> ResolvedStyle;

    /// The style of the group `group`.
    spec fn spec_style(&self, group: HighlightGroup) -> Style;

    fn default_style(&self) -> (s: ResolvedStyle)
        ensures
            s == self.spec_default_style(),
    ;

    fn style(&self, group: HighlightGroup) -> (s: Style)
        ensures
            s == self.spec_style(group),
    ;
}

/// The Gruvbox theme.
pub struct Gruvbox;

/// The Gruvbox theme's style for text outside every group.
pub open spec fn gruvbox_default_style() -> ResolvedStyle {
    ResolvedStyle {
        fg_color: Rgb { r: 235, g: 219, b: 178 },
        bg_color: Rgb { r: 29, g: 32, b: 33 },
        is_bold: false,
        is_italic: false,
        is_underline: false,
    }
}

/// The Gruvbox theme's style for each group.
pub open spec fn gruvbox_style(group: HighlightGroup) -> Style {
    match group {
        HighlightGroup::CtrlFlowKeyword | HighlightGroup::OtherKeyword => Style {
            fg_color: Some(Rgb { r: 251, g: 73, b: 52 }),
            bg_color: None,
            is_bold: true,
            is_italic: false,
            is_underline: false,
        },
        HighlightGroup::FunctionDef | HighlightGroup::FunctionCall => Style {
            fg_color: Some(Rgb { r: 184, g: 187, b: 38 }),
            bg_color: None,
            is_bold: false,
            is_italic: false,
            is_underline: false,
        },
        HighlightGroup::TyDef | HighlightGroup::TyUse | HighlightGroup::InterfaceDef | HighlightGroup::InterfaceUse | HighlightGroup::PrimitiveTy => Style {
            fg_color: Some(Rgb { r: 250, g: 189, b: 47 }),
            bg_color: None,
            is_bold: false,
            is_italic: false,
            is_underline: false,
        },
        HighlightGroup::VariableDef | HighlightGroup::VariableUse | HighlightGroup::FunctionParam => Style {
            fg_color: Some(Rgb { r: 131, g: 165, b: 152 }),
            bg_color: None,
            is_bold: false,
            is_italic: false,
            is_underline: false,
        },
        HighlightGroup::ConstantDef | HighlightGroup::ConstantUse | HighlightGroup::Number | HighlightGroup::Boolean => Style {
            fg_color: Some(Rgb { r: 211, g: 134, b: 155 }),
            bg_color: None,
            is_bold: false,
            is_italic: false,
            is_underline: false,
        },
        HighlightGroup::ModuleDef | HighlightGroup::ModuleUse => Style {
            fg_color: Some(Rgb { r: 131, g: 165, b: 152 }),
            bg_color: None,
            is_bold: false,
            is_italic: false,
            is_underline: false,
        },
        HighlightGroup::MacroDef | HighlightGroup::MacroUse | HighlightGroup::PreProc | HighlightGroup::Attribute => Style {
            fg_color: Some(Rgb { r: 142, g: 192, b: 124 }),
            bg_color: None,
            is_bold: false,
            is_italic: false,
            is_underline: false,
        },
        HighlightGroup::String | HighlightGroup::StringDelimiter | HighlightGroup::Character | HighlightGroup::CharacterDelimiter => Style {
            fg_color: Some(Rgb { r: 184, g: 187, b: 38 }),
            bg_color: None,
            is_bold: false,
            is_italic: false,
            is_underline: false,
        },
        HighlightGroup::SpecialIdentDef | HighlightGroup::SpecialIdentUse | HighlightGroup::SpecialIdentDefSigil | HighlightGroup::SpecialIdentUseSigil => Style {
            fg_color: Some(Rgb { r: 254, g: 128, b: 25 }),
            bg_color: None,
            is_bold: false,
            is_italic: false,
            is_underline: false,
        },
        HighlightGroup::Comment | HighlightGroup::DocComment => Style {
            fg_color: Some(Rgb { r: 189, g: 174, b: 147 }),
            bg_color: None,
            is_bold: false,
            is_italic: false,
            is_underline: false,
        },
        HighlightGroup::MemberOper | HighlightGroup::PointerOper | HighlightGroup::AssignOper | HighlightGroup::Delimiter | HighlightGroup::Separator | HighlightGroup::Terminator => Style {
            fg_color: None,
            bg_color: None,
            is_bold: false,
            is_italic: false,
            is_underline: false,
        },
        HighlightGroup::Error => Style {
            fg_color: Some(Rgb { r: 251, g: 73, b: 52 }),
            bg_color: None,
            is_bold: false,
            is_italic: false,
            is_underline: true,
        },
        _ => Style { fg_color: None, bg_color: None, is_bold: false, is_italic: false, is_underline: false },
    }
}

impl Theme for Gruvbox {
    open spec fn spec_default_style(&self) -> ResolvedStyle {
        gruvbox_default_style()
    }

    open spec fn spec_style(&self, group: HighlightGroup) -> Style {
        gruvbox_style(group)
    }

    fn default_style(&self) -> (s: ResolvedStyle) {
        ResolvedStyle {
            fg_color: Rgb { r: 235, g: 219, b: 178 },
            bg_color: Rgb { r: 29, g: 32, b: 33 },
            is_bold: false,
            is_italic: false,
            is_underline: false,
        }
    }

    fn style(&self, group: HighlightGroup) -> (s: Style) {
        match group {
            HighlightGroup::CtrlFlowKeyword | HighlightGroup::OtherKeyword => Style {
                fg_color: Some(Rgb { r: 251, g: 73, b: 52 }),
                bg_color: None,
                is_bold: true,
                is_italic: false,
                is_underline: false,
            },
            HighlightGroup::FunctionDef | HighlightGroup::FunctionCall => Style {
                fg_color: Some(Rgb { r: 184, g: 187, b: 38 }),
                bg_color: None,
                is_bold: false,
                is_italic: false,
                is_underline: false,
            },
            HighlightGroup::TyDef | HighlightGroup::TyUse | HighlightGroup::InterfaceDef | HighlightGroup::InterfaceUse | HighlightGroup::PrimitiveTy => Style {
                fg_color: Some(Rgb { r: 250, g: 189, b: 47 }),
                bg_color: None,
                is_bold: false,
                is_italic: false,
                is_underline: false,
            },
            HighlightGroup::VariableDef | HighlightGroup::VariableUse | HighlightGroup::FunctionParam => Style {
                fg_color: Some(Rgb { r: 131, g: 165, b: 152 }),
                bg_color: None,
                is_bold: false,
                is_italic: false,
                is_underline: false,
            },
            HighlightGroup::ConstantDef | HighlightGroup::ConstantUse | HighlightGroup::Number | HighlightGroup::Boolean => Style {
                fg_color: Some(Rgb { r: 211, g: 134, b: 155 }),
                bg_color: None,
                is_bold: false,
                is_italic: false,
                is_underline: false,
            },
            HighlightGroup::ModuleDef | HighlightGroup::ModuleUse => Style {
                fg_color: Some(Rgb { r: 131, g: 165, b: 152 }),
                bg_color: None,
                is_bold: false,
                is_italic: false,
                is_underline: false,
            },
            HighlightGroup::MacroDef | HighlightGroup::MacroUse | HighlightGroup::PreProc | HighlightGroup::Attribute => Style {
                fg_color: Some(Rgb { r: 142, g: 192, b: 124 }),
                bg_color: None,
                is_bold: false,
                is_italic: false,
                is_underline: false,
            },
            HighlightGroup::String | HighlightGroup::StringDelimiter | HighlightGroup::Character | HighlightGroup::CharacterDelimiter => Style {
                fg_color: Some(Rgb { r: 184, g: 187, b: 38 }),
                bg_color: None,
                is_bold: false,
                is_italic: false,
                is_underline: false,
            },
            HighlightGroup::SpecialIdentDef | HighlightGroup::SpecialIdentUse | HighlightGroup::SpecialIdentDefSigil | HighlightGroup::SpecialIdentUseSigil => Style {
                fg_color: Some(Rgb { r: 254, g: 128, b: 25 }),
                bg_color: None,
                is_bold: false,
                is_italic: false,
                is_underline: false,
            },
            HighlightGroup::Comment | HighlightGroup::DocComment => Style {
                fg_color: Some(Rgb { r: 189, g: 174, b: 147 }),
                bg_color: None,
                is_bold: false,
                is_italic: false,
                is_underline: false,
            },
            HighlightGroup::MemberOper | HighlightGroup::PointerOper | HighlightGroup::AssignOper | HighlightGroup::Delimiter | HighlightGroup::Separator | HighlightGroup::Terminator => Style {
                fg_color: None,
                bg_color: None,
                is_bold: false,
                is_italic: false,
                is_underline: false,
            },
            HighlightGroup::Error => Style {
                fg_color: Some(Rgb { r: 251, g: 73, b: 52 }),
                bg_color: None,
                is_bold: false,
                is_italic: false,
                is_underline: true,
            },
            _ => Style { fg_color: None, bg_color: None, is_bold: false, is_italic: false, is_underline: false },
        }
    }
}

/// The DarkPlus theme.
pub struct DarkPlus;

/// The DarkPlus theme's style for text outside every group.
pub open spec fn dark_plus_default_style() -> ResolvedStyle {
    ResolvedStyle {
        fg_color: Rgb { r: 212, g: 212, b: 212 },
        bg_color: Rgb { r: 30, g: 30, b: 30 },
        is_bold: false,
        is_italic: false,
        is_underline: false,
    }
}

/// The DarkPlus theme's style for each group.
pub open spec fn dark_plus_style(group: HighlightGroup) -> Style {
    match group {
        HighlightGroup::CtrlFlowKeyword => Style {
            fg_color: Some(Rgb { r: 197, g: 134, b: 192 }),
            bg_color: None,
            is_bold: false,
            is_italic: false,
            is_underline: false,
        },
        HighlightGroup::OtherKeyword | HighlightGroup::PrimitiveTy | HighlightGroup::Boolean => Style {
            fg_color: Some(Rgb { r: 86, g: 156, b: 214 }),
            bg_color: None,
            is_bold: false,
            is_italic: false,
            is_underline: false,
        },
        HighlightGroup::FunctionDef | HighlightGroup::FunctionCall | HighlightGroup::MacroDef | HighlightGroup::MacroUse => Style {
            fg_color: Some(Rgb { r: 220, g: 220, b: 170 }),
            bg_color: None,
            is_bold: false,
            is_italic: false,
            is_underline: false,
        },
        HighlightGroup::TyDef | HighlightGroup::TyUse => Style {
            fg_color: Some(Rgb { r: 78, g: 201, b: 176 }),
            bg_color: None,
            is_bold: false,
            is_italic: false,
            is_underline: false,
        },
        HighlightGroup::InterfaceDef | HighlightGroup::InterfaceUse => Style {
            fg_color: Some(Rgb { r: 184, g: 215, b: 163 }),
            bg_color: None,
            is_bold: false,
            is_italic: false,
            is_underline: false,
        },
        HighlightGroup::VariableDef | HighlightGroup::VariableUse | HighlightGroup::MemberDef | HighlightGroup::MemberUse | HighlightGroup::ConstantDef | HighlightGroup::ConstantUse | HighlightGroup::FunctionParam => Style {
            fg_color: Some(Rgb { r: 156, g: 220, b: 254 }),
            bg_color: None,
            is_bold: false,
            is_italic: false,
            is_underline: false,
        },
        HighlightGroup::SpecialIdentDef | HighlightGroup::SpecialIdentUse => Style {
            fg_color: Some(Rgb { r: 134, g: 198, b: 145 }),
            bg_color: None,
            is_bold: false,
            is_italic: false,
            is_underline: false,
        },
        HighlightGroup::ModuleDef | HighlightGroup::ModuleUse => Style {
            fg_color: None,
            bg_color: None,
            is_bold: false,
            is_italic: false,
            is_underline: false,
        },
        HighlightGroup::Number => Style {
            fg_color: Some(Rgb { r: 181, g: 206, b: 168 }),
            bg_color: None,
            is_bold: false,
            is_italic: false,
            is_underline: false,
        },
        HighlightGroup::String | HighlightGroup::StringDelimiter | HighlightGroup::Character | HighlightGroup::CharacterDelimiter => Style {
            fg_color: Some(Rgb { r: 206, g: 144, b: 120 }),
            bg_color: None,
            is_bold: false,
            is_italic: false,
            is_underline: false,
        },
        HighlightGroup::PreProc => Style {
            fg_color: Some(Rgb { r: 86, g: 156, b: 214 }),
            bg_color: None,
            is_bold: false,
            is_italic: false,
            is_underline: false,
        },
        HighlightGroup::Attribute => Style {
            fg_color: Some(Rgb { r: 178, g: 178, b: 178 }),
            bg_color: None,
            is_bold: false,
            is_italic: false,
            is_underline: false,
        },
        HighlightGroup::Comment | HighlightGroup::DocComment => Style {
            fg_color: Some(Rgb { r: 107, g: 153, b: 85 }),
            bg_color: None,
            is_bold: false,
            is_italic: false,
            is_underline: false,
        },
        HighlightGroup::MemberOper | HighlightGroup::PointerOper | HighlightGroup::AssignOper | HighlightGroup::BinaryOper | HighlightGroup::OtherOper | HighlightGroup::Delimiter | HighlightGroup::Separator | HighlightGroup::Terminator => Style {
            fg_color: Some(Rgb { r: 178, g: 178, b: 178 }),
            bg_color: None,
            is_bold: false,
            is_italic: false,
            is_underline: false,
        },
        HighlightGroup::Error => Style {
            fg_color: Some(Rgb { r: 244, g: 71, b: 71 }),
            bg_color: None,
            is_bold: false,
            is_italic: false,
            is_underline: true,
        },
        _ => Style { fg_color: None, bg_color: None, is_bold: false, is_italic: false, is_underline: false },
    }
}

impl Theme for DarkPlus {
    open spec fn spec_default_style(&self) -> ResolvedStyle {
        dark_plus_default_style()
    }

    open spec fn spec_style(&self, group: HighlightGroup) -> Style {
        dark_plus_style(group)
    }

    fn default_style(&self) -> (s: ResolvedStyle) {
        ResolvedStyle {
            fg_color: Rgb { r: 212, g: 212, b: 212 },
            bg_color: Rgb { r: 30, g: 30, b: 30 },
            is_bold: false,
            is_italic: false,
            is_underline: false,
        }
    }

    fn style(&self, group: HighlightGroup) -> (s: Style) {
        match group {
            HighlightGroup::CtrlFlowKeyword => Style {
                fg_color: Some(Rgb { r: 197, g: 134, b: 192 }),
                bg_color: None,
                is_bold: false,
                is_italic: false,
                is_underline: false,
            },
            HighlightGroup::OtherKeyword | HighlightGroup::PrimitiveTy | HighlightGroup::Boolean => Style {
                fg_color: Some(Rgb { r: 86, g: 156, b: 214 }),
                bg_color: None,
                is_bold: false,
                is_italic: false,
                is_underline: false,
            },
            HighlightGroup::FunctionDef | HighlightGroup::FunctionCall | HighlightGroup::MacroDef | HighlightGroup::MacroUse => Style {
                fg_color: Some(Rgb { r: 220, g: 220, b: 170 }),
                bg_color: None,
                is_bold: false,
                is_italic: false,
                is_underline: false,
            },
            HighlightGroup::TyDef | HighlightGroup::TyUse => Style {
                fg_color: Some(Rgb { r: 78, g: 201, b: 176 }),
                bg_color: None,
                is_bold: false,
                is_italic: false,
                is_underline: false,
            },
            HighlightGroup::InterfaceDef | HighlightGroup::InterfaceUse => Style {
                fg_color: Some(Rgb { r: 184, g: 215, b: 163 }),
                bg_color: None,
                is_bold: false,
                is_italic: false,
                is_underline: false,
            },
            HighlightGroup::VariableDef | HighlightGroup::VariableUse | HighlightGroup::MemberDef | HighlightGroup::MemberUse | HighlightGroup::ConstantDef | HighlightGroup::ConstantUse | HighlightGroup::FunctionParam => Style {
                fg_color: Some(Rgb { r: 156, g: 220, b: 254 }),
                bg_color: None,
                is_bold: false,
                is_italic: false,
                is_underline: false,
            },
            HighlightGroup::SpecialIdentDef | HighlightGroup::SpecialIdentUse => Style {
                fg_color: Some(Rgb { r: 134, g: 198, b: 145 }),
                bg_color: None,
                is_bold: false,
                is_italic: false,
                is_underline: false,
            },
            HighlightGroup::ModuleDef | HighlightGroup::ModuleUse => Style {
                fg_color: None,
                bg_color: None,
                is_bold: false,
                is_italic: false,
                is_underline: false,
            },
            HighlightGroup::Number => Style {
                fg_color: Some(Rgb { r: 181, g: 206, b: 168 }),
                bg_color: None,
                is_bold: false,
                is_italic: false,
                is_underline: false,
            },
            HighlightGroup::String | HighlightGroup::StringDelimiter | HighlightGroup::Character | HighlightGroup::CharacterDelimiter => Style {
                fg_color: Some(Rgb { r: 206, g: 144, b: 120 }),
                bg_color: None,
                is_bold: false,
                is_italic: false,
                is_underline: false,
            },
            HighlightGroup::PreProc => Style {
                fg_color: Some(Rgb { r: 86, g: 156, b: 214 }),
                bg_color: None,
                is_bold: false,
                is_italic: false,
                is_underline: false,
            },
            HighlightGroup::Attribute => Style {
                fg_color: Some(Rgb { r: 178, g: 178, b: 178 }),
                bg_color: None,
                is_bold: false,
                is_italic: false,
                is_underline: false,
            },
            HighlightGroup::Comment | HighlightGroup::DocComment => Style {
                fg_color: Some(Rgb { r: 107, g: 153, b: 85 }),
                bg_color: None,
                is_bold: false,
                is_italic: false,
                is_underline: false,
            },
            HighlightGroup::MemberOper | HighlightGroup::PointerOper | HighlightGroup::AssignOper | HighlightGroup::BinaryOper | HighlightGroup::OtherOper | HighlightGroup::Delimiter | HighlightGroup::Separator | HighlightGroup::Terminator => Style {
                fg_color: Some(Rgb { r: 178, g: 178, b: 178 }),
                bg_color: None,
                is_bold: false,
                is_italic: false,
                is_underline: false,
            },
            HighlightGroup::Error => Style {
                fg_color: Some(Rgb { r: 244, g: 71, b: 71 }),
                bg_color: None,
                is_bold: false,
                is_italic: false,
                is_underline: true,
            },
            _ => Style { fg_color: None, bg_color: None, is_bold: false, is_italic: false, is_underline: false },
        }
    }
}

/// The Dracula theme.
pub struct Dracula;

/// The Dracula theme's style for text outside every group.
pub open spec fn dracula_default_style() -> ResolvedStyle {
    ResolvedStyle {
        fg_color: Rgb { r: 248, g: 248, b: 242 },
        bg_color: Rgb { r: 40, g: 42, b: 54 },
        is_bold: false,
        is_italic: false,
        is_underline: false,
    }
}

/// The Dracula theme's style for each group.
pub open spec fn dracula_style(group: HighlightGroup) -> Style {
    match group {
        HighlightGroup::CtrlFlowKeyword | HighlightGroup::OtherKeyword => Style {
            fg_color: Some(Rgb { r: 255, g: 121, b: 198 }),
            bg_color: None,
            is_bold: false,
            is_italic: false,
            is_underline: false,
        },
        HighlightGroup::FunctionDef | HighlightGroup::FunctionCall => Style {
            fg_color: Some(Rgb { r: 80, g: 250, b: 123 }),
            bg_color: None,
            is_bold: false,
            is_italic: false,
            is_underline: false,
        },
        HighlightGroup::TyDef | HighlightGroup::TyUse | HighlightGroup::PrimitiveTy => Style {
            fg_color: Some(Rgb { r: 139, g: 233, b: 253 }),
            bg_color: None,
            is_bold: false,
            is_italic: false,
            is_underline: false,
        },
        HighlightGroup::InterfaceDef | HighlightGroup::InterfaceUse => Style {
            fg_color: Some(Rgb { r: 139, g: 233, b: 253 }),
            bg_color: None,
            is_bold: false,
            is_italic: true,
            is_underline: false,
        },
        HighlightGroup::VariableDef | HighlightGroup::VariableUse | HighlightGroup::MemberDef | HighlightGroup::MemberUse => Style {
            fg_color: None,
            bg_color: None,
            is_bold: false,
            is_italic: false,
            is_underline: false,
        },
        HighlightGroup::FunctionParam => Style {
            fg_color: Some(Rgb { r: 255, g: 184, b: 108 }),
            bg_color: None,
            is_bold: false,
            is_italic: true,
            is_underline: false,
        },
        HighlightGroup::ConstantDef | HighlightGroup::ConstantUse | HighlightGroup::Number | HighlightGroup::Boolean | HighlightGroup::Character | HighlightGroup::CharacterDelimiter => Style {
            fg_color: Some(Rgb { r: 189, g: 147, b: 249 }),
            bg_color: None,
            is_bold: false,
            is_italic: false,
            is_underline: false,
        },
        HighlightGroup::ModuleDef | HighlightGroup::ModuleUse => Style {
            fg_color: None,
            bg_color: None,
            is_bold: false,
            is_italic: false,
            is_underline: false,
        },
        HighlightGroup::MacroDef | HighlightGroup::MacroUse | HighlightGroup::PreProc => Style {
            fg_color: Some(Rgb { r: 139, g: 233, b: 253 }),
            bg_color: None,
            is_bold: false,
            is_italic: false,
            is_underline: false,
        },
        HighlightGroup::Attribute => Style {
            fg_color: Some(Rgb { r: 80, g: 250, b: 123 }),
            bg_color: None,
            is_bold: false,
            is_italic: true,
            is_underline: false,
        },
        HighlightGroup::String | HighlightGroup::StringDelimiter => Style {
            fg_color: Some(Rgb { r: 241, g: 250, b: 140 }),
            bg_color: None,
            is_bold: false,
            is_italic: false,
            is_underline: false,
        },
        HighlightGroup::SpecialIdentDef | HighlightGroup::SpecialIdentUse => Style {
            fg_color: Some(Rgb { r: 80, g: 250, b: 123 }),
            bg_color: None,
            is_bold: false,
            is_italic: false,
            is_underline: false,
        },
        HighlightGroup::Comment | HighlightGroup::DocComment => Style {
            fg_color: Some(Rgb { r: 98, g: 114, b: 164 }),
            bg_color: None,
            is_bold: false,
            is_italic: false,
            is_underline: false,
        },
        HighlightGroup::PointerOper | HighlightGroup::AssignOper | HighlightGroup::BinaryOper | HighlightGroup::OtherOper | HighlightGroup::Separator => Style {
            fg_color: Some(Rgb { r: 255, g: 121, b: 198 }),
            bg_color: None,
            is_bold: false,
            is_italic: false,
            is_underline: false,
        },
        HighlightGroup::MemberOper | HighlightGroup::Delimiter | HighlightGroup::Terminator => Style {
            fg_color: None,
            bg_color: None,
            is_bold: false,
            is_italic: false,
            is_underline: false,
        },
        HighlightGroup::Error => Style {
            fg_color: Some(Rgb { r: 255, g: 85, b: 85 }),
            bg_color: None,
            is_bold: false,
            is_italic: false,
            is_underline: false,
        },
        _ => Style { fg_color: None, bg_color: None, is_bold: false, is_italic: false, is_underline: false },
    }
}

impl Theme for Dracula {
    open spec fn spec_default_style(&self) -> ResolvedStyle {
        dracula_default_style()
    }

    open spec fn spec_style(&self, group: HighlightGroup) -> Style {
        dracula_style(group)
    }

    fn default_style(&self) -> (s: ResolvedStyle) {
        ResolvedStyle {
            fg_color: Rgb { r: 248, g: 248, b: 242 },
            bg_color: Rgb { r: 40, g: 42, b: 54 },
            is_bold: false,
            is_italic: false,
            is_underline: false,
        }
    }

    fn style(&self, group: HighlightGroup) -> (s: Style) {
        match group {
            HighlightGroup::CtrlFlowKeyword | HighlightGroup::OtherKeyword => Style {
                fg_color: Some(Rgb { r: 255, g: 121, b: 198 }),
                bg_color: None,
                is_bold: false,
                is_italic: false,
                is_underline: false,
            },
            HighlightGroup::FunctionDef | HighlightGroup::FunctionCall => Style {
                fg_color: Some(Rgb { r: 80, g: 250, b: 123 }),
                bg_color: None,
                is_bold: false,
                is_italic: false,
                is_underline: false,
            },
            HighlightGroup::TyDef | HighlightGroup::TyUse | HighlightGroup::PrimitiveTy => Style {
                fg_color: Some(Rgb { r: 139, g: 233, b: 253 }),
                bg_color: None,
                is_bold: false,
                is_italic: false,
                is_underline: false,
            },
            HighlightGroup::InterfaceDef | HighlightGroup::InterfaceUse => Style {
                fg_color: Some(Rgb { r: 139, g: 233, b: 253 }),
                bg_color: None,
                is_bold: false,
                is_italic: true,
                is_underline: false,
            },
            HighlightGroup::VariableDef | HighlightGroup::VariableUse | HighlightGroup::MemberDef | HighlightGroup::MemberUse => Style {
                fg_color: None,
                bg_color: None,
                is_bold: false,
                is_italic: false,
                is_underline: false,
            },
            HighlightGroup::FunctionParam => Style {
                fg_color: Some(Rgb { r: 255, g: 184, b: 108 }),
                bg_color: None,
                is_bold: false,
                is_italic: true,
                is_underline: false,
            },
            HighlightGroup::ConstantDef | HighlightGroup::ConstantUse | HighlightGroup::Number | HighlightGroup::Boolean | HighlightGroup::Character | HighlightGroup::CharacterDelimiter => Style {
                fg_color: Some(Rgb { r: 189, g: 147, b: 249 }),
                bg_color: None,
                is_bold: false,
                is_italic: false,
                is_underline: false,
            },
            HighlightGroup::ModuleDef | HighlightGroup::ModuleUse => Style {
                fg_color: None,
                bg_color: None,
                is_bold: false,
                is_italic: false,
                is_underline: false,
            },
            HighlightGroup::MacroDef | HighlightGroup::MacroUse | HighlightGroup::PreProc => Style {
                fg_color: Some(Rgb { r: 139, g: 233, b: 253 }),
                bg_color: None,
                is_bold: false,
                is_italic: false,
                is_underline: false,
            },
            HighlightGroup::Attribute => Style {
                fg_color: Some(Rgb { r: 80, g: 250, b: 123 }),
                bg_color: None,
                is_bold: false,
                is_italic: true,
                is_underline: false,
            },
            HighlightGroup::String | HighlightGroup::StringDelimiter => Style {
                fg_color: Some(Rgb { r: 241, g: 250, b: 140 }),
                bg_color: None,
                is_bold: false,
                is_italic: false,
                is_underline: false,
            },
            HighlightGroup::SpecialIdentDef | HighlightGroup::SpecialIdentUse => Style {
                fg_color: Some(Rgb { r: 80, g: 250, b: 123 }),
                bg_color: None,
                is_bold: false,
                is_italic: false,
                is_underline: false,
            },
            HighlightGroup::Comment | HighlightGroup::DocComment => Style {
                fg_color: Some(Rgb { r: 98, g: 114, b: 164 }),
                bg_color: None,
                is_bold: false,
                is_italic: false,
                is_underline: false,
            },
            HighlightGroup::PointerOper | HighlightGroup::AssignOper | HighlightGroup::BinaryOper | HighlightGroup::OtherOper | HighlightGroup::Separator => Style {
                fg_color: Some(Rgb { r: 255, g: 121, b: 198 }),
                bg_color: None,
                is_bold: false,
                is_italic: false,
                is_underline: false,
            },
            HighlightGroup::MemberOper | HighlightGroup::Delimiter | HighlightGroup::Terminator => Style {
                fg_color: None,
                bg_color: None,
                is_bold: false,
                is_italic: false,
                is_underline: false,
            },
            HighlightGroup::Error => Style {
                fg_color: Some(Rgb { r: 255, g: 85, b: 85 }),
                bg_color: None,
                is_bold: false,
                is_italic: false,
                is_underline: false,
            },
            _ => Style { fg_color: None, bg_color: None, is_bold: false, is_italic: false, is_underline: false },
        }
    }
}

/// The Monokai theme.
pub struct Monokai;

/// The Monokai theme's style for text outside every group.
pub open spec fn monokai_default_style() -> ResolvedStyle {
    ResolvedStyle {
        fg_color: Rgb { r: 248, g: 248, b: 242 },
        bg_color: Rgb { r: 39, g: 40, b: 34 },
        is_bold: false,
        is_italic: false,
        is_underline: false,
    }
}

/// The Monokai theme's style for each group.
pub open spec fn monokai_style(group: HighlightGroup) -> Style {
    match group {
        HighlightGroup::CtrlFlowKeyword | HighlightGroup::PointerOper | HighlightGroup::AssignOper => Style {
            fg_color: Some(Rgb { r: 249, g: 38, b: 114 }),
            bg_color: None,
            is_bold: false,
            is_italic: false,
            is_underline: false,
        },
        HighlightGroup::OtherKeyword => Style {
            fg_color: Some(Rgb { r: 102, g: 217, b: 239 }),
            bg_color: None,
            is_bold: false,
            is_italic: true,
            is_underline: false,
        },
        HighlightGroup::FunctionDef | HighlightGroup::TyDef | HighlightGroup::InterfaceDef | HighlightGroup::MacroDef => Style {
            fg_color: Some(Rgb { r: 166, g: 226, b: 46 }),
            bg_color: None,
            is_bold: false,
            is_italic: false,
            is_underline: false,
        },
        HighlightGroup::FunctionCall | HighlightGroup::MacroUse | HighlightGroup::PreProc => Style {
            fg_color: Some(Rgb { r: 102, g: 217, b: 239 }),
            bg_color: None,
            is_bold: false,
            is_italic: false,
            is_underline: false,
        },
        HighlightGroup::TyUse | HighlightGroup::InterfaceUse | HighlightGroup::PrimitiveTy => Style {
            fg_color: Some(Rgb { r: 102, g: 217, b: 239 }),
            bg_color: None,
            is_bold: false,
            is_italic: true,
            is_underline: false,
        },
        HighlightGroup::VariableDef | HighlightGroup::VariableUse | HighlightGroup::MemberDef | HighlightGroup::MemberUse | HighlightGroup::ModuleDef | HighlightGroup::ModuleUse => Style {
            fg_color: None,
            bg_color: None,
            is_bold: false,
            is_italic: false,
            is_underline: false,
        },
        HighlightGroup::SpecialIdentDef | HighlightGroup::SpecialIdentUse | HighlightGroup::SpecialIdentDefSigil | HighlightGroup::SpecialIdentUseSigil => Style {
            fg_color: Some(Rgb { r: 174, g: 129, b: 255 }),
            bg_color: None,
            is_bold: false,
            is_italic: false,
            is_underline: false,
        },
        HighlightGroup::FunctionParam => Style {
            fg_color: Some(Rgb { r: 253, g: 151, b: 31 }),
            bg_color: None,
            is_bold: false,
            is_italic: true,
            is_underline: false,
        },
        HighlightGroup::ConstantDef | HighlightGroup::ConstantUse | HighlightGroup::Number | HighlightGroup::Character | HighlightGroup::CharacterDelimiter | HighlightGroup::Boolean => Style {
            fg_color: Some(Rgb { r: 174, g: 129, b: 255 }),
            bg_color: None,
            is_bold: false,
            is_italic: false,
            is_underline: false,
        },
        HighlightGroup::String | HighlightGroup::StringDelimiter => Style {
            fg_color: Some(Rgb { r: 230, g: 219, b: 116 }),
            bg_color: None,
            is_bold: false,
            is_italic: false,
            is_underline: false,
        },
        HighlightGroup::Comment | HighlightGroup::DocComment => Style {
            fg_color: Some(Rgb { r: 117, g: 113, b: 94 }),
            bg_color: None,
            is_bold: false,
            is_italic: false,
            is_underline: false,
        },
        HighlightGroup::Attribute => Style {
            fg_color: Some(Rgb { r: 117, g: 113, b: 94 }),
            bg_color: None,
            is_bold: false,
            is_italic: false,
            is_underline: false,
        },
        HighlightGroup::Error => Style {
            fg_color: Some(Rgb { r: 249, g: 38, b: 114 }),
            bg_color: None,
            is_bold: false,
            is_italic: false,
            is_underline: true,
        },
        HighlightGroup::MemberOper | HighlightGroup::Delimiter | HighlightGroup::Separator | HighlightGroup::Terminator => Style {
            fg_color: None,
            bg_color: None,
            is_bold: false,
            is_italic: false,
            is_underline: false,
        },
        _ => Style { fg_color: None, bg_color: None, is_bold: false, is_italic: false, is_underline: false },
    }
}

impl Theme for Monokai {
    open spec fn spec_default_style(&self) -> ResolvedStyle {
        monokai_default_style()
    }

    open spec fn spec_style(&self, group: HighlightGroup) -> Style {
        monokai_style(group)
    }

    fn default_style(&self) -> (s: ResolvedStyle) {
        ResolvedStyle {
            fg_color: Rgb { r: 248, g: 248, b: 242 },
            bg_color: Rgb { r: 39, g: 40, b: 34 },
            is_bold: false,
            is_italic: false,
            is_underline: false,
        }
    }

    fn style(&self, group: HighlightGroup) -> (s: Style) {
        match group {
            HighlightGroup::CtrlFlowKeyword | HighlightGroup::PointerOper | HighlightGroup::AssignOper => Style {
                fg_color: Some(Rgb { r: 249, g: 38, b: 114 }),
                bg_color: None,
                is_bold: false,
                is_italic: false,
                is_underline: false,
            },
            HighlightGroup::OtherKeyword => Style {
                fg_color: Some(Rgb { r: 102, g: 217, b: 239 }),
                bg_color: None,
                is_bold: false,
                is_italic: true,
                is_underline: false,
            },
            HighlightGroup::FunctionDef | HighlightGroup::TyDef | HighlightGroup::InterfaceDef | HighlightGroup::MacroDef => Style {
                fg_color: Some(Rgb { r: 166, g: 226, b: 46 }),
                bg_color: None,
                is_bold: false,
                is_italic: false,
                is_underline: false,
            },
            HighlightGroup::FunctionCall | HighlightGroup::MacroUse | HighlightGroup::PreProc => Style {
                fg_color: Some(Rgb { r: 102, g: 217, b: 239 }),
                bg_color: None,
                is_bold: false,
                is_italic: false,
                is_underline: false,
            },
            HighlightGroup::TyUse | HighlightGroup::InterfaceUse | HighlightGroup::PrimitiveTy => Style {
                fg_color: Some(Rgb { r: 102, g: 217, b: 239 }),
                bg_color: None,
                is_bold: false,
                is_italic: true,
                is_underline: false,
            },
            HighlightGroup::VariableDef | HighlightGroup::VariableUse | HighlightGroup::MemberDef | HighlightGroup::MemberUse | HighlightGroup::ModuleDef | HighlightGroup::ModuleUse => Style {
                fg_color: None,
                bg_color: None,
                is_bold: false,
                is_italic: false,
                is_underline: false,
            },
            HighlightGroup::SpecialIdentDef | HighlightGroup::SpecialIdentUse | HighlightGroup::SpecialIdentDefSigil | HighlightGroup::SpecialIdentUseSigil => Style {
                fg_color: Some(Rgb { r: 174, g: 129, b: 255 }),
                bg_color: None,
                is_bold: false,
                is_italic: false,
                is_underline: false,
            },
            HighlightGroup::FunctionParam => Style {
                fg_color: Some(Rgb { r: 253, g: 151, b: 31 }),
                bg_color: None,
                is_bold: false,
                is_italic: true,
                is_underline: false,
            },
            HighlightGroup::ConstantDef | HighlightGroup::ConstantUse | HighlightGroup::Number | HighlightGroup::Character | HighlightGroup::CharacterDelimiter | HighlightGroup::Boolean => Style {
                fg_color: Some(Rgb { r: 174, g: 129, b: 255 }),
                bg_color: None,
                is_bold: false,
                is_italic: false,
                is_underline: false,
            },
            HighlightGroup::String | HighlightGroup::StringDelimiter => Style {
                fg_color: Some(Rgb { r: 230, g: 219, b: 116 }),
                bg_color: None,
                is_bold: false,
                is_italic: false,
                is_underline: false,
            },
            HighlightGroup::Comment | HighlightGroup::DocComment => Style {
                fg_color: Some(Rgb { r: 117, g: 113, b: 94 }),
                bg_color: None,
                is_bold: false,
                is_italic: false,
                is_underline: false,
            },
            HighlightGroup::Attribute => Style {
                fg_color: Some(Rgb { r: 117, g: 113, b: 94 }),
                bg_color: None,
                is_bold: false,
                is_italic: false,
                is_underline: false,
            },
            HighlightGroup::Error => Style {
                fg_color: Some(Rgb { r: 249, g: 38, b: 114 }),
                bg_color: None,
                is_bold: false,
                is_italic: false,
                is_underline: true,
            },
            HighlightGroup::MemberOper | HighlightGroup::Delimiter | HighlightGroup::Separator | HighlightGroup::Terminator => Style {
                fg_color: None,
                bg_color: None,
                is_bold: false,
                is_italic: false,
                is_underline: false,
            },
            _ => Style { fg_color: None, bg_color: None, is_bold: false, is_italic: false, is_underline: false },
        }
    }
}

/// The Nord theme.
pub struct Nord;

/// The Nord theme's style for text outside every group.
pub open spec fn nord_default_style() -> ResolvedStyle {
    ResolvedStyle {
        fg_color: Rgb { r: 236, g: 239, b: 244 },
        bg_color: Rgb { r: 46, g: 52, b: 64 },
        is_bold: false,
        is_italic: false,
        is_underline: false,
    }
}

/// The Nord theme's style for each group.
pub open spec fn nord_style(group: HighlightGroup) -> Style {
    match group {
        HighlightGroup::CtrlFlowKeyword | HighlightGroup::OtherKeyword => Style {
            fg_color: Some(Rgb { r: 129, g: 161, b: 193 }),
            bg_color: None,
            is_bold: false,
            is_italic: false,
            is_underline: false,
        },
        HighlightGroup::FunctionDef | HighlightGroup::FunctionCall => Style {
            fg_color: Some(Rgb { r: 136, g: 192, b: 208 }),
            bg_color: None,
            is_bold: false,
            is_italic: false,
            is_underline: false,
        },
        HighlightGroup::TyDef | HighlightGroup::TyUse | HighlightGroup::InterfaceDef | HighlightGroup::InterfaceUse | HighlightGroup::PrimitiveTy => Style {
            fg_color: Some(Rgb { r: 143, g: 188, b: 187 }),
            bg_color: None,
            is_bold: false,
            is_italic: false,
            is_underline: false,
        },
        HighlightGroup::VariableDef | HighlightGroup::VariableUse | HighlightGroup::MemberDef | HighlightGroup::MemberUse | HighlightGroup::ConstantDef | HighlightGroup::ConstantUse | HighlightGroup::FunctionParam => Style {
            fg_color: Some(Rgb { r: 216, g: 222, b: 233 }),
            bg_color: None,
            is_bold: false,
            is_italic: false,
            is_underline: false,
        },
        HighlightGroup::ModuleDef | HighlightGroup::ModuleUse => Style {
            fg_color: None,
            bg_color: None,
            is_bold: false,
            is_italic: false,
            is_underline: false,
        },
        HighlightGroup::MacroDef | HighlightGroup::MacroUse | HighlightGroup::PreProc => Style {
            fg_color: Some(Rgb { r: 94, g: 129, b: 172 }),
            bg_color: None,
            is_bold: false,
            is_italic: false,
            is_underline: false,
        },
        HighlightGroup::SpecialIdentDef | HighlightGroup::SpecialIdentUse => Style {
            fg_color: Some(Rgb { r: 143, g: 188, b: 187 }),
            bg_color: None,
            is_bold: false,
            is_italic: false,
            is_underline: false,
        },
        HighlightGroup::Number => Style {
            fg_color: Some(Rgb { r: 180, g: 142, b: 173 }),
            bg_color: None,
            is_bold: false,
            is_italic: false,
            is_underline: false,
        },
        HighlightGroup::String | HighlightGroup::StringDelimiter => Style {
            fg_color: Some(Rgb { r: 163, g: 190, b: 140 }),
            bg_color: None,
            is_bold: false,
            is_italic: false,
            is_underline: false,
        },
        HighlightGroup::Character | HighlightGroup::CharacterDelimiter => Style {
            fg_color: Some(Rgb { r: 235, g: 203, b: 139 }),
            bg_color: None,
            is_bold: false,
            is_italic: false,
            is_underline: false,
        },
        HighlightGroup::Boolean => Style {
            fg_color: Some(Rgb { r: 129, g: 161, b: 193 }),
            bg_color: None,
            is_bold: false,
            is_italic: false,
            is_underline: false,
        },
        HighlightGroup::Attribute => Style {
            fg_color: Some(Rgb { r: 208, g: 135, b: 112 }),
            bg_color: None,
            is_bold: false,
            is_italic: false,
            is_underline: false,
        },
        HighlightGroup::Comment | HighlightGroup::DocComment => Style {
            fg_color: Some(Rgb { r: 76, g: 86, b: 106 }),
            bg_color: None,
            is_bold: false,
            is_italic: false,
            is_underline: false,
        },
        HighlightGroup::MemberOper | HighlightGroup::PointerOper | HighlightGroup::AssignOper | HighlightGroup::BinaryOper | HighlightGroup::OtherOper | HighlightGroup::Separator | HighlightGroup::Terminator => Style {
            fg_color: Some(Rgb { r: 129, g: 161, b: 193 }),
            bg_color: None,
            is_bold: false,
            is_italic: false,
            is_underline: false,
        },
        HighlightGroup::Delimiter => Style {
            fg_color: None,
            bg_color: None,
            is_bold: false,
            is_italic: false,
            is_underline: false,
        },
        HighlightGroup::Error => Style {
            fg_color: Some(Rgb { r: 191, g: 97, b: 106 }),
            bg_color: None,
            is_bold: false,
            is_italic: false,
            is_underline: false,
        },
        _ => Style { fg_color: None, bg_color: None, is_bold: false, is_italic: false, is_underline: false },
    }
}

impl Theme for Nord {
    open spec fn spec_default_style(&self) -> ResolvedStyle {
        nord_default_style()
    }

    open spec fn spec_style(&self, group: HighlightGroup) -> Style {
        nord_style(group)
    }

    fn default_style(&self) -> (s: ResolvedStyle) {
        ResolvedStyle {
            fg_color: Rgb { r: 236, g: 239, b: 244 },
            bg_color: Rgb { r: 46, g: 52, b: 64 },
            is_bold: false,
            is_italic: false,
            is_underline: false,
        }
    }

    fn style(&self, group: HighlightGroup) -> (s: Style) {
        match group {
            HighlightGroup::CtrlFlowKeyword | HighlightGroup::OtherKeyword => Style {
                fg_color: Some(Rgb { r: 129, g: 161, b: 193 }),
                bg_color: None,
                is_bold: false,
                is_italic: false,
                is_underline: false,
            },
            HighlightGroup::FunctionDef | HighlightGroup::FunctionCall => Style {
                fg_color: Some(Rgb { r: 136, g: 192, b: 208 }),
                bg_color: None,
                is_bold: false,
                is_italic: false,
                is_underline: false,
            },
            HighlightGroup::TyDef | HighlightGroup::TyUse | HighlightGroup::InterfaceDef | HighlightGroup::InterfaceUse | HighlightGroup::PrimitiveTy => Style {
                fg_color: Some(Rgb { r: 143, g: 188, b: 187 }),
                bg_color: None,
                is_bold: false,
                is_italic: false,
                is_underline: false,
            },
            HighlightGroup::VariableDef | HighlightGroup::VariableUse | HighlightGroup::MemberDef | HighlightGroup::MemberUse | HighlightGroup::ConstantDef | HighlightGroup::ConstantUse | HighlightGroup::FunctionParam => Style {
                fg_color: Some(Rgb { r: 216, g: 222, b: 233 }),
                bg_color: None,
                is_bold: false,
                is_italic: false,
                is_underline: false,
            },
            HighlightGroup::ModuleDef | HighlightGroup::ModuleUse => Style {
                fg_color: None,
                bg_color: None,
                is_bold: false,
                is_italic: false,
                is_underline: false,
            },
            HighlightGroup::MacroDef | HighlightGroup::MacroUse | HighlightGroup::PreProc => Style {
                fg_color: Some(Rgb { r: 94, g: 129, b: 172 }),
                bg_color: None,
                is_bold: false,
                is_italic: false,
                is_underline: false,
            },
            HighlightGroup::SpecialIdentDef | HighlightGroup::SpecialIdentUse => Style {
                fg_color: Some(Rgb { r: 143, g: 188, b: 187 }),
                bg_color: None,
                is_bold: false,
                is_italic: false,
                is_underline: false,
            },
            HighlightGroup::Number => Style {
                fg_color: Some(Rgb { r: 180, g: 142, b: 173 }),
                bg_color: None,
                is_bold: false,
                is_italic: false,
                is_underline: false,
            },
            HighlightGroup::String | HighlightGroup::StringDelimiter => Style {
                fg_color: Some(Rgb { r: 163, g: 190, b: 140 }),
                bg_color: None,
                is_bold: false,
                is_italic: false,
                is_underline: false,
            },
            HighlightGroup::Character | HighlightGroup::CharacterDelimiter => Style {
                fg_color: Some(Rgb { r: 235, g: 203, b: 139 }),
                bg_color: None,
                is_bold: false,
                is_italic: false,
                is_underline: false,
            },
            HighlightGroup::Boolean => Style {
                fg_color: Some(Rgb { r: 129, g: 161, b: 193 }),
                bg_color: None,
                is_bold: false,
                is_italic: false,
                is_underline: false,
            },
            HighlightGroup::Attribute => Style {
                fg_color: Some(Rgb { r: 208, g: 135, b: 112 }),
                bg_color: None,
                is_bold: false,
                is_italic: false,
                is_underline: false,
            },
            HighlightGroup::Comment | HighlightGroup::DocComment => Style {
                fg_color: Some(Rgb { r: 76, g: 86, b: 106 }),
                bg_color: None,
                is_bold: false,
                is_italic: false,
                is_underline: false,
            },
            HighlightGroup::MemberOper | HighlightGroup::PointerOper | HighlightGroup::AssignOper | HighlightGroup::BinaryOper | HighlightGroup::OtherOper | HighlightGroup::Separator | HighlightGroup::Terminator => Style {
                fg_color: Some(Rgb { r: 129, g: 161, b: 193 }),
                bg_color: None,
                is_bold: false,
                is_italic: false,
                is_underline: false,
            },
            HighlightGroup::Delimiter => Style {
                fg_color: None,
                bg_color: None,
                is_bold: false,
                is_italic: false,
                is_underline: false,
            },
            HighlightGroup::Error => Style {
                fg_color: Some(Rgb { r: 191, g: 97, b: 106 }),
                bg_color: None,
                is_bold: false,
                is_italic: false,
                is_underline: false,
            },
            _ => Style { fg_color: None, bg_color: None, is_bold: false, is_italic: false, is_underline: false },
        }
    }
}

/// The Seoul theme.
pub struct Seoul;

/// The Seoul theme's style for text outside every group.
pub open spec fn seoul_default_style() -> ResolvedStyle {
    ResolvedStyle {
        fg_color: Rgb { r: 217, g: 217, b: 217 },
        bg_color: Rgb { r: 75, g: 75, b: 75 },
        is_bold: false,
        is_italic: false,
        is_underline: false,
    }
}

/// The Seoul theme's style for each group.
pub open spec fn seoul_style(group: HighlightGroup) -> Style {
    match group {
        HighlightGroup::CtrlFlowKeyword => Style {
            fg_color: Some(Rgb { r: 152, g: 190, b: 222 }),
            bg_color: None,
            is_bold: false,
            is_italic: false,
            is_underline: false,
        },
        HighlightGroup::OtherKeyword => Style {
            fg_color: Some(Rgb { r: 152, g: 188, b: 153 }),
            bg_color: None,
            is_bold: false,
            is_italic: false,
            is_underline: false,
        },
        HighlightGroup::FunctionDef | HighlightGroup::FunctionCall => Style {
            fg_color: Some(Rgb { r: 223, g: 222, b: 189 }),
            bg_color: None,
            is_bold: false,
            is_italic: false,
            is_underline: false,
        },
        HighlightGroup::TyDef | HighlightGroup::TyUse | HighlightGroup::InterfaceDef | HighlightGroup::InterfaceUse | HighlightGroup::PrimitiveTy => Style {
            fg_color: Some(Rgb { r: 223, g: 188, b: 114 }),
            bg_color: None,
            is_bold: false,
            is_italic: false,
            is_underline: false,
        },
        HighlightGroup::VariableDef | HighlightGroup::VariableUse | HighlightGroup::FunctionParam => Style {
            fg_color: None,
            bg_color: None,
            is_bold: false,
            is_italic: false,
            is_underline: false,
        },
        HighlightGroup::MemberDef | HighlightGroup::MemberUse => Style {
            fg_color: Some(Rgb { r: 255, g: 191, b: 189 }),
            bg_color: None,
            is_bold: false,
            is_italic: false,
            is_underline: false,
        },
        HighlightGroup::ConstantDef | HighlightGroup::ConstantUse => Style {
            fg_color: Some(Rgb { r: 255, g: 191, b: 189 }),
            bg_color: None,
            is_bold: false,
            is_italic: false,
            is_underline: false,
        },
        HighlightGroup::ModuleDef | HighlightGroup::ModuleUse => Style {
            fg_color: None,
            bg_color: None,
            is_bold: false,
            is_italic: false,
            is_underline: false,
        },
        HighlightGroup::MacroDef | HighlightGroup::MacroUse | HighlightGroup::PreProc => Style {
            fg_color: Some(Rgb { r: 189, g: 187, b: 114 }),
            bg_color: None,
            is_bold: false,
            is_italic: false,
            is_underline: false,
        },
        HighlightGroup::SpecialIdentDef | HighlightGroup::SpecialIdentUse => Style {
            fg_color: Some(Rgb { r: 111, g: 188, b: 189 }),
            bg_color: None,
            is_bold: false,
            is_italic: false,
            is_underline: false,
        },
        HighlightGroup::Number => Style {
            fg_color: Some(Rgb { r: 255, g: 222, b: 153 }),
            bg_color: None,
            is_bold: false,
            is_italic: false,
            is_underline: false,
        },
        HighlightGroup::String | HighlightGroup::Character => Style {
            fg_color: Some(Rgb { r: 152, g: 188, b: 189 }),
            bg_color: None,
            is_bold: false,
            is_italic: false,
            is_underline: false,
        },
        HighlightGroup::StringDelimiter | HighlightGroup::CharacterDelimiter => Style {
            fg_color: Some(Rgb { r: 190, g: 152, b: 115 }),
            bg_color: None,
            is_bold: false,
            is_italic: false,
            is_underline: false,
        },
        HighlightGroup::Boolean => Style {
            fg_color: Some(Rgb { r: 153, g: 154, b: 189 }),
            bg_color: None,
            is_bold: false,
            is_italic: false,
            is_underline: false,
        },
        HighlightGroup::Attribute => Style {
            fg_color: Some(Rgb { r: 152, g: 188, b: 153 }),
            bg_color: None,
            is_bold: false,
            is_italic: false,
            is_underline: false,
        },
        HighlightGroup::Comment | HighlightGroup::DocComment => Style {
            fg_color: Some(Rgb { r: 113, g: 152, b: 114 }),
            bg_color: None,
            is_bold: false,
            is_italic: false,
            is_underline: false,
        },
        HighlightGroup::MemberOper | HighlightGroup::PointerOper | HighlightGroup::AssignOper | HighlightGroup::BinaryOper | HighlightGroup::OtherOper => Style {
            fg_color: Some(Rgb { r: 222, g: 221, b: 153 }),
            bg_color: None,
            is_bold: false,
            is_italic: false,
            is_underline: false,
        },
        HighlightGroup::Separator | HighlightGroup::Delimiter | HighlightGroup::Terminator => Style {
            fg_color: None,
            bg_color: None,
            is_bold: false,
            is_italic: false,
            is_underline: false,
        },
        HighlightGroup::Error => Style {
            fg_color: Some(Rgb { r: 225, g: 120, b: 153 }),
            bg_color: None,
            is_bold: false,
            is_italic: false,
            is_underline: true,
        },
        _ => Style { fg_color: None, bg_color: None, is_bold: false, is_italic: false, is_underline: false },
    }
}

impl Theme for Seoul {
    open spec fn spec_default_style(&self) -> ResolvedStyle {
        seoul_default_style()
    }

    open spec fn spec_style(&self, group: HighlightGroup) -> Style {
        seoul_style(group)
    }

    fn default_style(&self) -> (s: ResolvedStyle) {
        ResolvedStyle {
            fg_color: Rgb { r: 217, g: 217, b: 217 },
            bg_color: Rgb { r: 75, g: 75, b: 75 },
            is_bold: false,
            is_italic: false,
            is_underline: false,
        }
    }

    fn style(&self, group: HighlightGroup) -> (s: Style) {
        match group {
            HighlightGroup::CtrlFlowKeyword => Style {
                fg_color: Some(Rgb { r: 152, g: 190, b: 222 }),
                bg_color: None,
                is_bold: false,
                is_italic: false,
                is_underline: false,
            },
            HighlightGroup::OtherKeyword => Style {
                fg_color: Some(Rgb { r: 152, g: 188, b: 153 }),
                bg_color: None,
                is_bold: false,
                is_italic: false,
                is_underline: false,
            },
            HighlightGroup::FunctionDef | HighlightGroup::FunctionCall => Style {
                fg_color: Some(Rgb { r: 223, g: 222, b: 189 }),
                bg_color: None,
                is_bold: false,
                is_italic: false,
                is_underline: false,
            },
            HighlightGroup::TyDef | HighlightGroup::TyUse | HighlightGroup::InterfaceDef | HighlightGroup::InterfaceUse | HighlightGroup::PrimitiveTy => Style {
                fg_color: Some(Rgb { r: 223, g: 188, b: 114 }),
                bg_color: None,
                is_bold: false,
                is_italic: false,
                is_underline: false,
            },
            HighlightGroup::VariableDef | HighlightGroup::VariableUse | HighlightGroup::FunctionParam => Style {
                fg_color: None,
                bg_color: None,
                is_bold: false,
                is_italic: false,
                is_underline: false,
            },
            HighlightGroup::MemberDef | HighlightGroup::MemberUse => Style {
                fg_color: Some(Rgb { r: 255, g: 191, b: 189 }),
                bg_color: None,
                is_bold: false,
                is_italic: false,
                is_underline: false,
            },
            HighlightGroup::ConstantDef | HighlightGroup::ConstantUse => Style {
                fg_color: Some(Rgb { r: 255, g: 191, b: 189 }),
                bg_color: None,
                is_bold: false,
                is_italic: false,
                is_underline: false,
            },
            HighlightGroup::ModuleDef | HighlightGroup::ModuleUse => Style {
                fg_color: None,
                bg_color: None,
                is_bold: false,
                is_italic: false,
                is_underline: false,
            },
            HighlightGroup::MacroDef | HighlightGroup::MacroUse | HighlightGroup::PreProc => Style {
                fg_color: Some(Rgb { r: 189, g: 187, b: 114 }),
                bg_color: None,
                is_bold: false,
                is_italic: false,
                is_underline: false,
            },
            HighlightGroup::SpecialIdentDef | HighlightGroup::SpecialIdentUse => Style {
                fg_color: Some(Rgb { r: 111, g: 188, b: 189 }),
                bg_color: None,
                is_bold: false,
                is_italic: false,
                is_underline: false,
            },
            HighlightGroup::Number => Style {
                fg_color: Some(Rgb { r: 255, g: 222, b: 153 }),
                bg_color: None,
                is_bold: false,
                is_italic: false,
                is_underline: false,
            },
            HighlightGroup::String | HighlightGroup::Character => Style {
                fg_color: Some(Rgb { r: 152, g: 188, b: 189 }),
                bg_color: None,
                is_bold: false,
                is_italic: false,
                is_underline: false,
            },
            HighlightGroup::StringDelimiter | HighlightGroup::CharacterDelimiter => Style {
                fg_color: Some(Rgb { r: 190, g: 152, b: 115 }),
                bg_color: None,
                is_bold: false,
                is_italic: false,
                is_underline: false,
            },
            HighlightGroup::Boolean => Style {
                fg_color: Some(Rgb { r: 153, g: 154, b: 189 }),
                bg_color: None,
                is_bold: false,
                is_italic: false,
                is_underline: false,
            },
            HighlightGroup::Attribute => Style {
                fg_color: Some(Rgb { r: 152, g: 188, b: 153 }),
                bg_color: None,
                is_bold: false,
                is_italic: false,
                is_underline: false,
            },
            HighlightGroup::Comment | HighlightGroup::DocComment => Style {
                fg_color: Some(Rgb { r: 113, g: 152, b: 114 }),
                bg_color: None,
                is_bold: false,
                is_italic: false,
                is_underline: false,
            },
            HighlightGroup::MemberOper | HighlightGroup::PointerOper | HighlightGroup::AssignOper | HighlightGroup::BinaryOper | HighlightGroup::OtherOper => Style {
                fg_color: Some(Rgb { r: 222, g: 221, b: 153 }),
                bg_color: None,
                is_bold: false,
                is_italic: false,
                is_underline: false,
            },
            HighlightGroup::Separator | HighlightGroup::Delimiter | HighlightGroup::Terminator => Style {
                fg_color: None,
                bg_color: None,
                is_bold: false,
                is_italic: false,
                is_underline: false,
            },
            HighlightGroup::Error => Style {
                fg_color: Some(Rgb { r: 225, g: 120, b: 153 }),
                bg_color: None,
                is_bold: false,
                is_italic: false,
                is_underline: true,
            },
            _ => Style { fg_color: None, bg_color: None, is_bold: false, is_italic: false, is_underline: false },
        }
    }
}

/// The gray of the Gruvbox theme's palette.
pub open spec fn gruvbox_gray() -> Rgb {
    Rgb { r: 189, g: 174, b: 147 }
}

/// The Gruvbox theme shows comments and doc comments alike, in its palette's
/// gray, with no background and no emphasis; no other group has
/// that colour, so comments stand apart from the code around them.
pub proof fn law_gruvbox_comments_stand_apart(group: HighlightGroup)
    ensures
        Gruvbox.spec_style(HighlightGroup::DocComment) == Gruvbox.spec_style(HighlightGroup::Comment),
        Gruvbox.spec_style(HighlightGroup::Comment) == (Style {
            fg_color: Some(gruvbox_gray()),
            bg_color: None,
            is_bold: false,
            is_italic: false,
            is_underline: false,
        }),
        group != HighlightGroup::Comment && group != HighlightGroup::DocComment
            ==> Gruvbox.spec_style(group).fg_color != Some(gruvbox_gray()),
{
}

/// The dark green of the DarkPlus theme's palette.
pub open spec fn dark_plus_dark_green() -> Rgb {
    Rgb { r: 107, g: 153, b: 85 }
}

/// The DarkPlus theme shows comments and doc comments alike, in its palette's
/// dark green, with no background and no emphasis; no other group has
/// that colour, so comments stand apart from the code around them.
pub proof fn law_dark_plus_comments_stand_apart(group: HighlightGroup)
    ensures
        DarkPlus.spec_style(HighlightGroup::DocComment) == DarkPlus.spec_style(HighlightGroup::Comment),
        DarkPlus.spec_style(HighlightGroup::Comment) == (Style {
            fg_color: Some(dark_plus_dark_green()),
            bg_color: None,
            is_bold: false,
            is_italic: false,
            is_underline: false,
        }),
        group != HighlightGroup::Comment && group != HighlightGroup::DocComment
            ==> DarkPlus.spec_style(group).fg_color != Some(dark_plus_dark_green()),
{
}

/// The faded blue of the Dracula theme's palette.
pub open spec fn dracula_faded() -> Rgb {
    Rgb { r: 98, g: 114, b: 164 }
}

/// The Dracula theme shows comments and doc comments alike, in its palette's
/// faded blue, with no background and no emphasis; no other group has
/// that colour, so comments stand apart from the code around them.
pub proof fn law_dracula_comments_stand_apart(group: HighlightGroup)
    ensures
        Dracula.spec_style(HighlightGroup::DocComment) == Dracula.spec_style(HighlightGroup::Comment),
        Dracula.spec_style(HighlightGroup::Comment) == (Style {
            fg_color: Some(dracula_faded()),
            bg_color: None,
            is_bold: false,
            is_italic: false,
            is_underline: false,
        }),
        group != HighlightGroup::Comment && group != HighlightGroup::DocComment
            ==> Dracula.spec_style(group).fg_color != Some(dracula_faded()),
{
}

/// The faded brown of the Monokai theme's palette.
pub open spec fn monokai_faded() -> Rgb {
    Rgb { r: 117, g: 113, b: 94 }
}

/// The Monokai theme shows comments and doc comments alike, in its palette's
/// faded brown, with no background and no emphasis; besides them only
/// attributes have that colour, so comments stand apart from the code.
pub proof fn law_monokai_comments_stand_apart(group: HighlightGroup)
    ensures
        Monokai.spec_style(HighlightGroup::DocComment) == Monokai.spec_style(HighlightGroup::Comment),
        Monokai.spec_style(HighlightGroup::Comment) == (Style {
            fg_color: Some(monokai_faded()),
            bg_color: None,
            is_bold: false,
            is_italic: false,
            is_underline: false,
        }),
        group != HighlightGroup::Comment && group != HighlightGroup::DocComment && group != HighlightGroup::Attribute
            ==> Monokai.spec_style(group).fg_color != Some(monokai_faded()),
{
}

/// `nord3`, the brightest of the dark greys of the Nord theme's palette.
pub open spec fn nord_nord3() -> Rgb {
    Rgb { r: 76, g: 86, b: 106 }
}

/// The Nord theme shows comments and doc comments alike, in its palette's
/// `nord3`, with no background and no emphasis; no other group has that
/// colour, so comments stand apart from the code around them.
pub proof fn law_nord_comments_stand_apart(group: HighlightGroup)
    ensures
        Nord.spec_style(HighlightGroup::DocComment) == Nord.spec_style(HighlightGroup::Comment),
        Nord.spec_style(HighlightGroup::Comment) == (Style {
            fg_color: Some(nord_nord3()),
            bg_color: None,
            is_bold: false,
            is_italic: false,
            is_underline: false,
        }),
        group != HighlightGroup::Comment && group != HighlightGroup::DocComment
            ==> Nord.spec_style(group).fg_color != Some(nord_nord3()),
{
}

/// The dark green of the Seoul theme's palette.
pub open spec fn seoul_dark_green() -> Rgb {
    Rgb { r: 113, g: 152, b: 114 }
}

/// The Seoul theme shows comments and doc comments alike, in its palette's
/// dark green, with no background and no emphasis; no other group has
/// that colour, so comments stand apart from the code around them.
pub proof fn law_seoul_comments_stand_apart(group: HighlightGroup)
    ensures
        Seoul.spec_style(HighlightGroup::DocComment) == Seoul.spec_style(HighlightGroup::Comment),
        Seoul.spec_style(HighlightGroup::Comment) == (Style {
            fg_color: Some(seoul_dark_green()),
            bg_color: None,
            is_bold: false,
            is_italic: false,
            is_underline: false,
        }),
        group != HighlightGroup::Comment && group != HighlightGroup::DocComment
            ==> Seoul.spec_style(group).fg_color != Some(seoul_dark_green()),
{
}

/// `RED` of the Gruvbox theme's palette.
pub open spec fn gruvbox_red() -> Rgb {
    Rgb { r: 251, g: 73, b: 52 }
}

/// `GREEN` of the Gruvbox theme's palette.
pub open spec fn gruvbox_green() -> Rgb {
    Rgb { r: 184, g: 187, b: 38 }
}

/// `YELLOW` of the Gruvbox theme's palette.
pub open spec fn gruvbox_yellow() -> Rgb {
    Rgb { r: 250, g: 189, b: 47 }
}

/// `BLUE` of the Gruvbox theme's palette.
pub open spec fn gruvbox_blue() -> Rgb {
    Rgb { r: 131, g: 165, b: 152 }
}

/// `PURPLE` of the Gruvbox theme's palette.
pub open spec fn gruvbox_purple() -> Rgb {
    Rgb { r: 211, g: 134, b: 155 }
}

/// `AQUA` of the Gruvbox theme's palette.
pub open spec fn gruvbox_aqua() -> Rgb {
    Rgb { r: 142, g: 192, b: 124 }
}

/// `ORANGE` of the Gruvbox theme's palette.
pub open spec fn gruvbox_orange() -> Rgb {
    Rgb { r: 254, g: 128, b: 25 }
}

/// The Gruvbox theme draws each group in the colour of its palette that
/// belongs to the group's role (or leaves it uncoloured), sets no
/// background, and emphasises only the groups named here.
pub proof fn law_gruvbox_palette(group: HighlightGroup)
    ensures
        Gruvbox.spec_style(group).fg_color == (match group {
            HighlightGroup::CtrlFlowKeyword | HighlightGroup::OtherKeyword
            | HighlightGroup::Error => Some(gruvbox_red()),
            HighlightGroup::FunctionDef | HighlightGroup::FunctionCall | HighlightGroup::String
            | HighlightGroup::StringDelimiter | HighlightGroup::Character
            | HighlightGroup::CharacterDelimiter => Some(gruvbox_green()),
            HighlightGroup::TyDef | HighlightGroup::TyUse | HighlightGroup::InterfaceDef
            | HighlightGroup::InterfaceUse | HighlightGroup::PrimitiveTy => Some(gruvbox_yellow()),
            HighlightGroup::VariableDef | HighlightGroup::VariableUse
            | HighlightGroup::FunctionParam | HighlightGroup::ModuleDef
            | HighlightGroup::ModuleUse => Some(gruvbox_blue()),
            HighlightGroup::ConstantDef | HighlightGroup::ConstantUse | HighlightGroup::Number
            | HighlightGroup::Boolean => Some(gruvbox_purple()),
            HighlightGroup::MacroDef | HighlightGroup::MacroUse | HighlightGroup::PreProc
            | HighlightGroup::Attribute => Some(gruvbox_aqua()),
            HighlightGroup::SpecialIdentDef | HighlightGroup::SpecialIdentUse
            | HighlightGroup::SpecialIdentDefSigil | HighlightGroup::SpecialIdentUseSigil => Some(gruvbox_orange()),
            HighlightGroup::Comment | HighlightGroup::DocComment => Some(gruvbox_gray()),
            _ => None,
        }),
        Gruvbox.spec_style(group).bg_color is None,
        Gruvbox.spec_style(group).is_bold == (group is CtrlFlowKeyword || group is OtherKeyword),
        Gruvbox.spec_style(group).is_italic == false,
        Gruvbox.spec_style(group).is_underline == (group is Error),
{
}

/// `PURPLE` of the DarkPlus theme's palette.
pub open spec fn dark_plus_purple() -> Rgb {
    Rgb { r: 197, g: 134, b: 192 }
}

/// `DARK_BLUE` of the DarkPlus theme's palette.
pub open spec fn dark_plus_dark_blue() -> Rgb {
    Rgb { r: 86, g: 156, b: 214 }
}

/// `YELLOW` of the DarkPlus theme's palette.
pub open spec fn dark_plus_yellow() -> Rgb {
    Rgb { r: 220, g: 220, b: 170 }
}

/// `TEAL` of the DarkPlus theme's palette.
pub open spec fn dark_plus_teal() -> Rgb {
    Rgb { r: 78, g: 201, b: 176 }
}

/// `DULL_GREEN` of the DarkPlus theme's palette.
pub open spec fn dark_plus_dull_green() -> Rgb {
    Rgb { r: 184, g: 215, b: 163 }
}

/// `LIGHT_BLUE` of the DarkPlus theme's palette.
pub open spec fn dark_plus_light_blue() -> Rgb {
    Rgb { r: 156, g: 220, b: 254 }
}

/// `GREEN` of the DarkPlus theme's palette.
pub open spec fn dark_plus_green() -> Rgb {
    Rgb { r: 134, g: 198, b: 145 }
}

/// `DULL_GREEN_DARKER` of the DarkPlus theme's palette.
pub open spec fn dark_plus_dull_green_darker() -> Rgb {
    Rgb { r: 181, g: 206, b: 168 }
}

/// `ORANGE` of the DarkPlus theme's palette.
pub open spec fn dark_plus_orange() -> Rgb {
    Rgb { r: 206, g: 144, b: 120 }
}

/// `FADED` of the DarkPlus theme's palette.
pub open spec fn dark_plus_faded() -> Rgb {
    Rgb { r: 178, g: 178, b: 178 }
}

/// `RED` of the DarkPlus theme's palette.
pub open spec fn dark_plus_red() -> Rgb {
    Rgb { r: 244, g: 71, b: 71 }
}

/// The DarkPlus theme draws each group in the colour of its palette that
/// belongs to the group's role (or leaves it uncoloured), sets no
/// background, and emphasises only the groups named here.
pub proof fn law_dark_plus_palette(group: HighlightGroup)
    ensures
        DarkPlus.spec_style(group).fg_color == (match group {
            HighlightGroup::CtrlFlowKeyword => Some(dark_plus_purple()),
            HighlightGroup::OtherKeyword | HighlightGroup::PrimitiveTy | HighlightGroup::Boolean
            | HighlightGroup::PreProc => Some(dark_plus_dark_blue()),
            HighlightGroup::FunctionDef | HighlightGroup::FunctionCall
            | HighlightGroup::MacroDef | HighlightGroup::MacroUse => Some(dark_plus_yellow()),
            HighlightGroup::TyDef | HighlightGroup::TyUse => Some(dark_plus_teal()),
            HighlightGroup::InterfaceDef | HighlightGroup::InterfaceUse => Some(dark_plus_dull_green()),
            HighlightGroup::VariableDef | HighlightGroup::VariableUse
            | HighlightGroup::MemberDef | HighlightGroup::MemberUse
            | HighlightGroup::ConstantDef | HighlightGroup::ConstantUse
            | HighlightGroup::FunctionParam => Some(dark_plus_light_blue()),
            HighlightGroup::SpecialIdentDef | HighlightGroup::SpecialIdentUse => Some(dark_plus_green()),
            HighlightGroup::Number => Some(dark_plus_dull_green_darker()),
            HighlightGroup::String | HighlightGroup::StringDelimiter | HighlightGroup::Character
            | HighlightGroup::CharacterDelimiter => Some(dark_plus_orange()),
            HighlightGroup::Attribute | HighlightGroup::MemberOper | HighlightGroup::PointerOper
            | HighlightGroup::AssignOper | HighlightGroup::BinaryOper
            | HighlightGroup::OtherOper | HighlightGroup::Delimiter | HighlightGroup::Separator
            | HighlightGroup::Terminator => Some(dark_plus_faded()),
            HighlightGroup::Comment | HighlightGroup::DocComment => Some(dark_plus_dark_green()),
            HighlightGroup::Error => Some(dark_plus_red()),
            _ => None,
        }),
        DarkPlus.spec_style(group).bg_color is None,
        DarkPlus.spec_style(group).is_bold == false,
        DarkPlus.spec_style(group).is_italic == false,
        DarkPlus.spec_style(group).is_underline == (group is Error),
{
}

/// `PINK` of the Dracula theme's palette.
pub open spec fn dracula_pink() -> Rgb {
    Rgb { r: 255, g: 121, b: 198 }
}

/// `GREEN` of the Dracula theme's palette.
pub open spec fn dracula_green() -> Rgb {
    Rgb { r: 80, g: 250, b: 123 }
}

/// `CYAN` of the Dracula theme's palette.
pub open spec fn dracula_cyan() -> Rgb {
    Rgb { r: 139, g: 233, b: 253 }
}

/// `ORANGE` of the Dracula theme's palette.
pub open spec fn dracula_orange() -> Rgb {
    Rgb { r: 255, g: 184, b: 108 }
}

/// `PURPLE` of the Dracula theme's palette.
pub open spec fn dracula_purple() -> Rgb {
    Rgb { r: 189, g: 147, b: 249 }
}

/// `YELLOW` of the Dracula theme's palette.
pub open spec fn dracula_yellow() -> Rgb {
    Rgb { r: 241, g: 250, b: 140 }
}

/// `RED` of the Dracula theme's palette.
pub open spec fn dracula_red() -> Rgb {
    Rgb { r: 255, g: 85, b: 85 }
}

/// The Dracula theme draws each group in the colour of its palette that
/// belongs to the group's role (or leaves it uncoloured), sets no
/// background, and emphasises only the groups named here.
pub proof fn law_dracula_palette(group: HighlightGroup)
    ensures
        Dracula.spec_style(group).fg_color == (match group {
            HighlightGroup::CtrlFlowKeyword | HighlightGroup::OtherKeyword
            | HighlightGroup::PointerOper | HighlightGroup::AssignOper
            | HighlightGroup::BinaryOper | HighlightGroup::OtherOper | HighlightGroup::Separator => Some(dracula_pink()),
            HighlightGroup::FunctionDef | HighlightGroup::FunctionCall
            | HighlightGroup::Attribute | HighlightGroup::SpecialIdentDef
            | HighlightGroup::SpecialIdentUse => Some(dracula_green()),
            HighlightGroup::TyDef | HighlightGroup::TyUse | HighlightGroup::PrimitiveTy
            | HighlightGroup::InterfaceDef | HighlightGroup::InterfaceUse
            | HighlightGroup::MacroDef | HighlightGroup::MacroUse | HighlightGroup::PreProc => Some(dracula_cyan()),
            HighlightGroup::FunctionParam => Some(dracula_orange()),
            HighlightGroup::ConstantDef | HighlightGroup::ConstantUse | HighlightGroup::Number
            | HighlightGroup::Boolean | HighlightGroup::Character
            | HighlightGroup::CharacterDelimiter => Some(dracula_purple()),
            HighlightGroup::String | HighlightGroup::StringDelimiter => Some(dracula_yellow()),
            HighlightGroup::Comment | HighlightGroup::DocComment => Some(dracula_faded()),
            HighlightGroup::Error => Some(dracula_red()),
            _ => None,
        }),
        Dracula.spec_style(group).bg_color is None,
        Dracula.spec_style(group).is_bold == false,
        Dracula.spec_style(group).is_italic == (group is InterfaceDef || group is InterfaceUse || group is FunctionParam
            || group is Attribute),
        Dracula.spec_style(group).is_underline == false,
{
}

/// `PINK` of the Monokai theme's palette.
pub open spec fn monokai_pink() -> Rgb {
    Rgb { r: 249, g: 38, b: 114 }
}

/// `CYAN` of the Monokai theme's palette.
pub open spec fn monokai_cyan() -> Rgb {
    Rgb { r: 102, g: 217, b: 239 }
}

/// `GREEN` of the Monokai theme's palette.
pub open spec fn monokai_green() -> Rgb {
    Rgb { r: 166, g: 226, b: 46 }
}

/// `PURPLE` of the Monokai theme's palette.
pub open spec fn monokai_purple() -> Rgb {
    Rgb { r: 174, g: 129, b: 255 }
}

/// `ORANGE` of the Monokai theme's palette.
pub open spec fn monokai_orange() -> Rgb {
    Rgb { r: 253, g: 151, b: 31 }
}

/// `YELLOW` of the Monokai theme's palette.
pub open spec fn monokai_yellow() -> Rgb {
    Rgb { r: 230, g: 219, b: 116 }
}

/// The Monokai theme draws each group in the colour of its palette that
/// belongs to the group's role (or leaves it uncoloured), sets no
/// background, and emphasises only the groups named here.
pub proof fn law_monokai_palette(group: HighlightGroup)
    ensures
        Monokai.spec_style(group).fg_color == (match group {
            HighlightGroup::CtrlFlowKeyword | HighlightGroup::PointerOper
            | HighlightGroup::AssignOper | HighlightGroup::Error => Some(monokai_pink()),
            HighlightGroup::OtherKeyword | HighlightGroup::FunctionCall
            | HighlightGroup::MacroUse | HighlightGroup::PreProc | HighlightGroup::TyUse
            | HighlightGroup::InterfaceUse | HighlightGroup::PrimitiveTy => Some(monokai_cyan()),
            HighlightGroup::FunctionDef | HighlightGroup::TyDef | HighlightGroup::InterfaceDef
            | HighlightGroup::MacroDef => Some(monokai_green()),
            HighlightGroup::SpecialIdentDef | HighlightGroup::SpecialIdentUse
            | HighlightGroup::SpecialIdentDefSigil | HighlightGroup::SpecialIdentUseSigil
            | HighlightGroup::ConstantDef | HighlightGroup::ConstantUse | HighlightGroup::Number
            | HighlightGroup::Character | HighlightGroup::CharacterDelimiter
            | HighlightGroup::Boolean => Some(monokai_purple()),
            HighlightGroup::FunctionParam => Some(monokai_orange()),
            HighlightGroup::String | HighlightGroup::StringDelimiter => Some(monokai_yellow()),
            HighlightGroup::Comment | HighlightGroup::DocComment | HighlightGroup::Attribute => Some(monokai_faded()),
            _ => None,
        }),
        Monokai.spec_style(group).bg_color is None,
        Monokai.spec_style(group).is_bold == false,
        Monokai.spec_style(group).is_italic == (group is OtherKeyword || group is TyUse || group is InterfaceUse
            || group is PrimitiveTy || group is FunctionParam),
        Monokai.spec_style(group).is_underline == (group is Error),
{
}

/// `NORD9` of the Nord theme's palette.
pub open spec fn nord_nord9() -> Rgb {
    Rgb { r: 129, g: 161, b: 193 }
}

/// `NORD8` of the Nord theme's palette.
pub open spec fn nord_nord8() -> Rgb {
    Rgb { r: 136, g: 192, b: 208 }
}

/// `NORD7` of the Nord theme's palette.
pub open spec fn nord_nord7() -> Rgb {
    Rgb { r: 143, g: 188, b: 187 }
}

/// `NORD4` of the Nord theme's palette.
pub open spec fn nord_nord4() -> Rgb {
    Rgb { r: 216, g: 222, b: 233 }
}

/// `NORD10` of the Nord theme's palette.
pub open spec fn nord_nord10() -> Rgb {
    Rgb { r: 94, g: 129, b: 172 }
}

/// `NORD15` of the Nord theme's palette.
pub open spec fn nord_nord15() -> Rgb {
    Rgb { r: 180, g: 142, b: 173 }
}

/// `NORD14` of the Nord theme's palette.
pub open spec fn nord_nord14() -> Rgb {
    Rgb { r: 163, g: 190, b: 140 }
}

/// `NORD13` of the Nord theme's palette.
pub open spec fn nord_nord13() -> Rgb {
    Rgb { r: 235, g: 203, b: 139 }
}

/// `NORD12` of the Nord theme's palette.
pub open spec fn nord_nord12() -> Rgb {
    Rgb { r: 208, g: 135, b: 112 }
}

/// `NORD11` of the Nord theme's palette.
pub open spec fn nord_nord11() -> Rgb {
    Rgb { r: 191, g: 97, b: 106 }
}

/// The Nord theme draws each group in the colour of its palette that
/// belongs to the group's role (or leaves it uncoloured), sets no
/// background, and emphasises only the groups named here.
pub proof fn law_nord_palette(group: HighlightGroup)
    ensures
        Nord.spec_style(group).fg_color == (match group {
            HighlightGroup::CtrlFlowKeyword | HighlightGroup::OtherKeyword
            | HighlightGroup::Boolean | HighlightGroup::MemberOper | HighlightGroup::PointerOper
            | HighlightGroup::AssignOper | HighlightGroup::BinaryOper
            | HighlightGroup::OtherOper | HighlightGroup::Separator | HighlightGroup::Terminator => Some(nord_nord9()),
            HighlightGroup::FunctionDef | HighlightGroup::FunctionCall => Some(nord_nord8()),
            HighlightGroup::TyDef | HighlightGroup::TyUse | HighlightGroup::InterfaceDef
            | HighlightGroup::InterfaceUse | HighlightGroup::PrimitiveTy
            | HighlightGroup::SpecialIdentDef | HighlightGroup::SpecialIdentUse => Some(nord_nord7()),
            HighlightGroup::VariableDef | HighlightGroup::VariableUse
            | HighlightGroup::MemberDef | HighlightGroup::MemberUse
            | HighlightGroup::ConstantDef | HighlightGroup::ConstantUse
            | HighlightGroup::FunctionParam => Some(nord_nord4()),
            HighlightGroup::MacroDef | HighlightGroup::MacroUse | HighlightGroup::PreProc => Some(nord_nord10()),
            HighlightGroup::Number => Some(nord_nord15()),
            HighlightGroup::String | HighlightGroup::StringDelimiter => Some(nord_nord14()),
            HighlightGroup::Character | HighlightGroup::CharacterDelimiter => Some(nord_nord13()),
            HighlightGroup::Attribute => Some(nord_nord12()),
            HighlightGroup::Comment | HighlightGroup::DocComment => Some(nord_nord3()),
            HighlightGroup::Error => Some(nord_nord11()),
            _ => None,
        }),
        Nord.spec_style(group).bg_color is None,
        Nord.spec_style(group).is_bold == false,
        Nord.spec_style(group).is_italic == false,
        Nord.spec_style(group).is_underline == false,
{
}

/// `BLUE` of the Seoul theme's palette.
pub open spec fn seoul_blue() -> Rgb {
    Rgb { r: 152, g: 190, b: 222 }
}

/// `GREEN` of the Seoul theme's palette.
pub open spec fn seoul_green() -> Rgb {
    Rgb { r: 152, g: 188, b: 153 }
}

/// `CREAM` of the Seoul theme's palette.
pub open spec fn seoul_cream() -> Rgb {
    Rgb { r: 223, g: 222, b: 189 }
}

/// `YELLOW` of the Seoul theme's palette.
pub open spec fn seoul_yellow() -> Rgb {
    Rgb { r: 223, g: 188, b: 114 }
}

/// `SALMON` of the Seoul theme's palette.
pub open spec fn seoul_salmon() -> Rgb {
    Rgb { r: 255, g: 191, b: 189 }
}

/// `KHAKI` of the Seoul theme's palette.
pub open spec fn seoul_khaki() -> Rgb {
    Rgb { r: 189, g: 187, b: 114 }
}

/// `CYAN` of the Seoul theme's palette.
pub open spec fn seoul_cyan() -> Rgb {
    Rgb { r: 111, g: 188, b: 189 }
}

/// `LIGHT_YELLOW` of the Seoul theme's palette.
pub open spec fn seoul_light_yellow() -> Rgb {
    Rgb { r: 255, g: 222, b: 153 }
}

/// `LIGHT_BLUE` of the Seoul theme's palette.
pub open spec fn seoul_light_blue() -> Rgb {
    Rgb { r: 152, g: 188, b: 189 }
}

/// `BROWN` of the Seoul theme's palette.
pub open spec fn seoul_brown() -> Rgb {
    Rgb { r: 190, g: 152, b: 115 }
}

/// `VIOLET` of the Seoul theme's palette.
pub open spec fn seoul_violet() -> Rgb {
    Rgb { r: 153, g: 154, b: 189 }
}

/// `LEMON` of the Seoul theme's palette.
pub open spec fn seoul_lemon() -> Rgb {
    Rgb { r: 222, g: 221, b: 153 }
}

/// `PURPLE` of the Seoul theme's palette.
pub open spec fn seoul_purple() -> Rgb {
    Rgb { r: 225, g: 120, b: 153 }
}

/// The Seoul theme draws each group in the colour of its palette that
/// belongs to the group's role (or leaves it uncoloured), sets no
/// background, and emphasises only the groups named here.
pub proof fn law_seoul_palette(group: HighlightGroup)
    ensures
        Seoul.spec_style(group).fg_color == (match group {
            HighlightGroup::CtrlFlowKeyword => Some(seoul_blue()),
            HighlightGroup::OtherKeyword | HighlightGroup::Attribute => Some(seoul_green()),
            HighlightGroup::FunctionDef | HighlightGroup::FunctionCall => Some(seoul_cream()),
            HighlightGroup::TyDef | HighlightGroup::TyUse | HighlightGroup::InterfaceDef
            | HighlightGroup::InterfaceUse | HighlightGroup::PrimitiveTy => Some(seoul_yellow()),
            HighlightGroup::MemberDef | HighlightGroup::MemberUse | HighlightGroup::ConstantDef
            | HighlightGroup::ConstantUse => Some(seoul_salmon()),
            HighlightGroup::MacroDef | HighlightGroup::MacroUse | HighlightGroup::PreProc => Some(seoul_khaki()),
            HighlightGroup::SpecialIdentDef | HighlightGroup::SpecialIdentUse => Some(seoul_cyan()),
            HighlightGroup::Number => Some(seoul_light_yellow()),
            HighlightGroup::String | HighlightGroup::Character => Some(seoul_light_blue()),
            HighlightGroup::StringDelimiter | HighlightGroup::CharacterDelimiter => Some(seoul_brown()),
            HighlightGroup::Boolean => Some(seoul_violet()),
            HighlightGroup::Comment | HighlightGroup::DocComment => Some(seoul_dark_green()),
            HighlightGroup::MemberOper | HighlightGroup::PointerOper
            | HighlightGroup::AssignOper | HighlightGroup::BinaryOper
            | HighlightGroup::OtherOper => Some(seoul_lemon()),
            HighlightGroup::Error => Some(seoul_purple()),
            _ => None,
        }),
        Seoul.spec_style(group).bg_color is None,
        Seoul.spec_style(group).is_bold == false,
        Seoul.spec_style(group).is_italic == false,
        Seoul.spec_style(group).is_underline == (group is Error),
{
}

/// How bright a colour is: the sum of its parts.
pub open spec fn brightness(c: Rgb) -> int {
    c.r as int + c.g as int + c.b as int
}

/// Whether a default style draws light, unemphasised text on a darker
/// background.
pub open spec fn light_on_dark(s: ResolvedStyle) -> bool {
    &&& brightness(s.fg_color) > brightness(s.bg_color)
    &&& !s.is_bold
    &&& !s.is_italic
    &&& !s.is_underline
}

/// Every theme is a dark one: text outside the groups is light, plain, and
/// drawn on a darker background.
pub proof fn law_themes_draw_light_on_dark()
    ensures
        light_on_dark(Gruvbox.spec_default_style()),
        light_on_dark(DarkPlus.spec_default_style()),
        light_on_dark(Dracula.spec_default_style()),
        light_on_dark(Monokai.spec_default_style()),
        light_on_dark(Nord.spec_default_style()),
        light_on_dark(Seoul.spec_default_style()),
{
}

} // verus!
