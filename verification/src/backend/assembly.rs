//! The assembly program as data: lines, directives, instructions and
//! registers, each with the text it is written as.

use crate::text::{decimal, push_decimal};
use vstd::prelude::*;

verus! {

/// A machine register, by its ABI name.
#[derive(Debug, Clone, Copy, PartialEq, Eq, Structural)]
pub enum Reg {
    /// Hard-wired zero.
    Zero,
    /// Return address.
    Ra,
    /// Stack pointer.
    Sp,
    /// Global pointer.
    Gp,
    /// Thread pointer.
    Tp,
    T0,
    T1,
    T2,
    T3,
    T4,
    T5,
    T6,
    S0,
    S1,
    S2,
    S3,
    S4,
    S5,
    S6,
    S7,
    S8,
    S9,
    S10,
    S11,
    /// First argument and return value.
    A0,
    A1,
    A2,
    A3,
    A4,
    A5,
    A6,
    A7,
}

impl Reg {
    /// The register's name as it is written in assembly.
    pub open spec fn text(self) -> Seq<char> {
        match self {
            Reg::Zero => "zero"@,
            Reg::Ra => "ra"@,
            Reg::Sp => "sp"@,
            Reg::Gp => "gp"@,
            Reg::Tp => "tp"@,
            Reg::T0 => "t0"@,
            Reg::T1 => "t1"@,
            Reg::T2 => "t2"@,
            Reg::T3 => "t3"@,
            Reg::T4 => "t4"@,
            Reg::T5 => "t5"@,
            Reg::T6 => "t6"@,
            Reg::S0 => "s0"@,
            Reg::S1 => "s1"@,
            Reg::S2 => "s2"@,
            Reg::S3 => "s3"@,
            Reg::S4 => "s4"@,
            Reg::S5 => "s5"@,
            Reg::S6 => "s6"@,
            Reg::S7 => "s7"@,
            Reg::S8 => "s8"@,
            Reg::S9 => "s9"@,
            Reg::S10 => "s10"@,
            Reg::S11 => "s11"@,
            Reg::A0 => "a0"@,
            Reg::A1 => "a1"@,
            Reg::A2 => "a2"@,
            Reg::A3 => "a3"@,
            Reg::A4 => "a4"@,
            Reg::A5 => "a5"@,
            Reg::A6 => "a6"@,
            Reg::A7 => "a7"@,
        }
    }

    /// The register's name as a string slice.
    pub fn as_str(&self) -> (s: &'static str)
        ensures
            s@ == self.text(),
    {
        match self {
            Reg::Zero => "zero",
            Reg::Ra => "ra",
            Reg::Sp => "sp",
            Reg::Gp => "gp",
            Reg::Tp => "tp",
            Reg::T0 => "t0",
            Reg::T1 => "t1",
            Reg::T2 => "t2",
            Reg::T3 => "t3",
            Reg::T4 => "t4",
            Reg::T5 => "t5",
            Reg::T6 => "t6",
            Reg::S0 => "s0",
            Reg::S1 => "s1",
            Reg::S2 => "s2",
            Reg::S3 => "s3",
            Reg::S4 => "s4",
            Reg::S5 => "s5",
            Reg::S6 => "s6",
            Reg::S7 => "s7",
            Reg::S8 => "s8",
            Reg::S9 => "s9",
            Reg::S10 => "s10",
            Reg::S11 => "s11",
            Reg::A0 => "a0",
            Reg::A1 => "a1",
            Reg::A2 => "a2",
            Reg::A3 => "a3",
            Reg::A4 => "a4",
            Reg::A5 => "a5",
            Reg::A6 => "a6",
            Reg::A7 => "a7",
        }
    }

    /// The register's name.
    pub fn to_string(&self) -> (s: String)
        ensures
            s@ == self.text(),
    {
        String::from_str(self.as_str())
    }
}

/// A section of the output.
#[derive(Debug, Clone, Copy, PartialEq, Eq, Structural)]
pub enum Section {
    Text,
    Data,
}

impl Section {
    /// The directive that opens the section.
    pub open spec fn text(self) -> Seq<char> {
        match self {
            Section::Text => ".text"@,
            Section::Data => ".data"@,
        }
    }

    /// The directive that opens the section.
    pub fn to_string(&self) -> (s: String)
        ensures
            s@ == self.text(),
    {
        match self {
            Section::Text => String::from_str(".text"),
            Section::Data => String::from_str(".data"),
        }
    }
}

/// An assembler directive.
#[derive(Debug, Clone, PartialEq, Eq)]
pub enum Directive {
    /// Switches to a section.
    Section(Section),
    /// Exports a symbol.
    Global(String),
}

/// A directive as contracts speak of it.
pub enum DirectiveView {
    Section(Section),
    Global(Seq<char>),
}

impl View for Directive {
    type V = DirectiveView;

    open spec fn view(&self) -> DirectiveView {
        match *self {
            Directive::Section(section) => DirectiveView::Section(section),
            Directive::Global(symbol) => DirectiveView::Global(symbol@),
        }
    }
}

impl DirectiveView {
    /// The directive as it is written in assembly.
    pub open spec fn text(self) -> Seq<char> {
        match self {
            DirectiveView::Section(section) => section.text(),
            DirectiveView::Global(symbol) => ".globl "@ + symbol,
        }
    }
}

impl Directive {
    /// The directive as it is written in assembly.
    pub fn to_string(&self) -> (s: String)
        ensures
            s@ == self@.text(),
    {
        match self {
            Directive::Section(section) => section.to_string(),
            Directive::Global(symbol) => {
                let mut out = String::from_str(".globl ");
                out.append(symbol.as_str());
                out
            },
        }
    }
}

/// A machine instruction.
#[non_exhaustive]
#[derive(Debug, Clone, Copy, PartialEq, Eq, Structural)]
pub enum Instruction {
    /// Loads an immediate.
    Li { reg: Reg, imm: i32 },
    Add { rd: Reg, rs1: Reg, rs2: Reg },
    Sub { rd: Reg, rs1: Reg, rs2: Reg },
    Mul { rd: Reg, rs1: Reg, rs2: Reg },
    /// Signed division, truncating toward zero.
    Div { rd: Reg, rs1: Reg, rs2: Reg },
    /// Signed remainder, with the sign of the dividend.
    Rem { rd: Reg, rs1: Reg, rs2: Reg },
    /// Bitwise and.
    And { rd: Reg, rs1: Reg, rs2: Reg },
    /// Bitwise or.
    Or { rd: Reg, rs1: Reg, rs2: Reg },
    /// Sets `rd` to 1 if `rs1 < rs2` (signed), else to 0.
    Slt { rd: Reg, rs1: Reg, rs2: Reg },
    /// Sets `rd` to 1 if `rs1 > rs2` (signed), else to 0.
    Sgt { rd: Reg, rs1: Reg, rs2: Reg },
    /// Adds an immediate.
    Addi { rd: Reg, rs: Reg, imm: i32 },
    /// Sets `rd` to 1 if `rs` is zero, else to 0.
    Seqz { rd: Reg, rs: Reg },
    /// Sets `rd` to 1 if `rs` is not zero, else to 0.
    Snez { rd: Reg, rs: Reg },
    /// Copies a register.
    Mv { rd: Reg, rs: Reg },
    /// Loads a word from `offset(base)`.
    Lw { rd: Reg, offset: i32, base: Reg },
    /// Stores a word to `offset(base)`.
    Sw { rs: Reg, offset: i32, base: Reg },
    /// Returns to the caller.
    Ret,
}

/// `<mnemonic> <a>, <b>`, indented.
pub open spec fn two_reg_text(mnemonic: Seq<char>, a: Reg, b: Reg) -> Seq<char> {
    "  "@ + mnemonic + " "@ + a.text() + ", "@ + b.text()
}

/// `<mnemonic> <rd>, <rs1>, <rs2>`, indented.
pub open spec fn three_reg_text(mnemonic: Seq<char>, rd: Reg, rs1: Reg, rs2: Reg) -> Seq<char> {
    two_reg_text(mnemonic, rd, rs1) + ", "@ + rs2.text()
}

/// `<mnemonic> <reg>, <offset>(<base>)`, indented.
pub open spec fn mem_text(mnemonic: Seq<char>, reg: Reg, offset: i32, base: Reg) -> Seq<char> {
    "  "@ + mnemonic + " "@ + reg.text() + ", "@ + decimal(offset as int) + "("@ + base.text()
        + ")"@
}

fn two_reg_string(mnemonic: &str, a: Reg, b: Reg) -> (s: String)
    ensures
        s@ == two_reg_text(mnemonic@, a, b),
{
    let mut out = String::from_str("  ");
    out.append(mnemonic);
    out.append(" ");
    out.append(a.as_str());
    out.append(", ");
    out.append(b.as_str());
    out
}

fn three_reg_string(mnemonic: &str, rd: Reg, rs1: Reg, rs2: Reg) -> (s: String)
    ensures
        s@ == three_reg_text(mnemonic@, rd, rs1, rs2),
{
    let mut out = two_reg_string(mnemonic, rd, rs1);
    out.append(", ");
    out.append(rs2.as_str());
    out
}

fn mem_string(mnemonic: &str, reg: Reg, offset: i32, base: Reg) -> (s: String)
    ensures
        s@ == mem_text(mnemonic@, reg, offset, base),
{
    let mut out = String::from_str("  ");
    out.append(mnemonic);
    out.append(" ");
    out.append(reg.as_str());
    out.append(", ");
    push_decimal(&mut out, offset);
    out.append("(");
    out.append(base.as_str());
    out.append(")");
    out
}

impl Instruction {
    /// The instruction as it is written in assembly: two spaces, the
    /// mnemonic, and the operands separated by a comma and a space.
    pub open spec fn text(self) -> Seq<char> {
        match self {
            Instruction::Li { reg, imm } => "  li "@ + reg.text() + ", "@ + decimal(imm as int),
            Instruction::Add { rd, rs1, rs2 } => three_reg_text("add"@, rd, rs1, rs2),
            Instruction::Sub { rd, rs1, rs2 } => three_reg_text("sub"@, rd, rs1, rs2),
            Instruction::Mul { rd, rs1, rs2 } => three_reg_text("mul"@, rd, rs1, rs2),
            Instruction::Div { rd, rs1, rs2 } => three_reg_text("div"@, rd, rs1, rs2),
            Instruction::Rem { rd, rs1, rs2 } => three_reg_text("rem"@, rd, rs1, rs2),
            Instruction::And { rd, rs1, rs2 } => three_reg_text("and"@, rd, rs1, rs2),
            Instruction::Or { rd, rs1, rs2 } => three_reg_text("or"@, rd, rs1, rs2),
            Instruction::Slt { rd, rs1, rs2 } => three_reg_text("slt"@, rd, rs1, rs2),
            Instruction::Sgt { rd, rs1, rs2 } => three_reg_text("sgt"@, rd, rs1, rs2),
            Instruction::Addi { rd, rs, imm } => two_reg_text("addi"@, rd, rs) + ", "@ + decimal(
                imm as int,
            ),
            Instruction::Seqz { rd, rs } => two_reg_text("seqz"@, rd, rs),
            Instruction::Snez { rd, rs } => two_reg_text("snez"@, rd, rs),
            Instruction::Mv { rd, rs } => two_reg_text("mv"@, rd, rs),
            Instruction::Lw { rd, offset, base } => mem_text("lw"@, rd, offset, base),
            Instruction::Sw { rs, offset, base } => mem_text("sw"@, rs, offset, base),
            Instruction::Ret => "  ret"@,
        }
    }

    /// The instruction as it is written in assembly.
    pub fn to_string(&self) -> (s: String)
        ensures
            s@ == self.text(),
    {
        match *self {
            Instruction::Li { reg, imm } => {
                let mut out = String::from_str("  li ");
                out.append(reg.as_str());
                out.append(", ");
                push_decimal(&mut out, imm);
                out
            },
            Instruction::Add { rd, rs1, rs2 } => three_reg_string("add", rd, rs1, rs2),
            Instruction::Sub { rd, rs1, rs2 } => three_reg_string("sub", rd, rs1, rs2),
            Instruction::Mul { rd, rs1, rs2 } => three_reg_string("mul", rd, rs1, rs2),
            Instruction::Div { rd, rs1, rs2 } => three_reg_string("div", rd, rs1, rs2),
            Instruction::Rem { rd, rs1, rs2 } => three_reg_string("rem", rd, rs1, rs2),
            Instruction::And { rd, rs1, rs2 } => three_reg_string("and", rd, rs1, rs2),
            Instruction::Or { rd, rs1, rs2 } => three_reg_string("or", rd, rs1, rs2),
            Instruction::Slt { rd, rs1, rs2 } => three_reg_string("slt", rd, rs1, rs2),
            Instruction::Sgt { rd, rs1, rs2 } => three_reg_string("sgt", rd, rs1, rs2),
            Instruction::Addi { rd, rs, imm } => {
                let mut out = two_reg_string("addi", rd, rs);
                out.append(", ");
                push_decimal(&mut out, imm);
                out
            },
            Instruction::Seqz { rd, rs } => two_reg_string("seqz", rd, rs),
            Instruction::Snez { rd, rs } => two_reg_string("snez", rd, rs),
            Instruction::Mv { rd, rs } => two_reg_string("mv", rd, rs),
            Instruction::Lw { rd, offset, base } => mem_string("lw", rd, offset, base),
            Instruction::Sw { rs, offset, base } => mem_string("sw", rs, offset, base),
            Instruction::Ret => String::from_str("  ret"),
        }
    }
}

/// One line of the assembly output.
#[derive(Debug, Clone, PartialEq, Eq)]
pub enum AsmLine {
    Directive(Directive),
    Instruction(Instruction),
    /// A label; written with a colon after it.
    Label(String),
    /// A comment; written after `# `.
    Comment(String),
}

/// A line as contracts speak of it.
pub enum AsmLineView {
    Directive(DirectiveView),
    Instruction(Instruction),
    Label(Seq<char>),
    Comment(Seq<char>),
}

impl View for AsmLine {
    type V = AsmLineView;

    open spec fn view(&self) -> AsmLineView {
        match *self {
            AsmLine::Directive(directive) => AsmLineView::Directive(directive@),
            AsmLine::Instruction(instruction) => AsmLineView::Instruction(instruction),
            AsmLine::Label(label) => AsmLineView::Label(label@),
            AsmLine::Comment(comment) => AsmLineView::Comment(comment@),
        }
    }
}

impl AsmLineView {
    /// The line as it is written in assembly.
    pub open spec fn text(self) -> Seq<char> {
        match self {
            AsmLineView::Directive(directive) => directive.text(),
            AsmLineView::Instruction(instruction) => instruction.text(),
            AsmLineView::Label(label) => label + ":"@,
            AsmLineView::Comment(comment) => "# "@ + comment,
        }
    }
}

impl AsmLine {
    /// The line as it is written in assembly.
    pub fn to_string(&self) -> (s: String)
        ensures
            s@ == self@.text(),
    {
        match self {
            AsmLine::Directive(directive) => directive.to_string(),
            AsmLine::Instruction(instruction) => instruction.to_string(),
            AsmLine::Label(label) => {
                let mut out = label.clone();
                out.append(":");
                out
            },
            AsmLine::Comment(comment) => {
                let mut out = String::from_str("# ");
                out.append(comment.as_str());
                out
            },
        }
    }
}

/// The lines that a sequence of instructions makes.
pub open spec fn instruction_lines(code: Seq<Instruction>) -> Seq<AsmLineView> {
    code.map_values(|instruction: Instruction| AsmLineView::Instruction(instruction))
}

/// The text of lines: each line's text, with a line feed between one line
/// and the next.
pub open spec fn lines_text(lines: Seq<AsmLineView>) -> Seq<char>
    decreases lines.len(),
{
    if lines.len() == 0 {
        Seq::empty()
    } else if lines.len() == 1 {
        lines[0].text()
    } else {
        lines_text(lines.drop_last()) + "\n"@ + lines.last().text()
    }
}

} // verus!
