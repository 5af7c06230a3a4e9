use vstd::prelude::*;

use crate::tokens::TokenType;

verus! {

// ---------------------------------------------------------------------------
// Mathematical models of the nodes that the grammar builds
// ---------------------------------------------------------------------------
/// The model of an attribute selector.
pub struct AttributeV {
    pub name: Seq<char>,
    pub matcher: Option<AttributeMatcher>,
    pub value: Option<Seq<char>>,
    pub flag: Option<Seq<char>>,
}

/// The model of a selector; a nesting selector carries nothing.
pub enum SelectorV {
    Id(Seq<char>),
    Class(Seq<char>),
    Attribute(AttributeV),
    Type(Seq<char>),
    Nesting,
}

/// The model of a value; a function value is only recorded as such.
pub enum ValueV {
    Dimension(Seq<char>, Option<Seq<char>>),
    Identifier(Seq<char>),
    Function,
}

/// The model of a declaration.
pub struct DeclarationV {
    pub property: Seq<char>,
    pub value: Seq<ValueV>,
    pub important: bool,
}

/// The model of a block child. Nested rules and at-rules are not built by
/// the grammar; the model records only which of them a child is.
pub enum BlockChildV {
    Rule,
    AtRule,
    DeclarationList(Seq<DeclarationV>),
}

/// The model of a rule.
pub struct RuleV {
    pub selectors: Seq<SelectorV>,
    pub block: Seq<BlockChildV>,
}

/// The model of a top-level entry; an at-rule is only recorded as such.
pub enum StyleSheetRuleV {
    AtRule,
    Rule(RuleV),
}

pub open spec fn opt_string_view(o: Option<String>) -> Option<Seq<char>> {
    match o {
        Some(x) => Some(x@),
        None => None,
    }
}

// ---------------------------------------------------------------------------
// Nodes
// ---------------------------------------------------------------------------
/// Used for the An+B microsyntax.
#[derive(Debug, PartialEq)]
pub struct AnPlusB {
    a: Option<String>,
    b: Option<String>,
}

#[derive(Debug, PartialEq)]
pub enum AtRulePreludeValue {
    AtRulePrelude(AtRulePrelude),
    Raw(Raw),
    Empty,
}

/// An at-rule such as `@import`, `@media`, `@keyframes` or `@supports`.
#[derive(Debug, PartialEq)]
pub struct AtRule {
    name: String,
    prelude: AtRulePreludeValue,
    block: Option<Block>,
}

#[derive(Debug, PartialEq)]
pub enum AtRulePreludeChild {
    MediaQueryList(MediaQueryList),
}

#[derive(Debug, PartialEq)]
pub struct AtRulePrelude {
    children: Vec<AtRulePrelude>,
}

/// The value of an attribute selector, as a string or as an identifier.
#[derive(Debug, PartialEq)]
pub enum AttributeSelectorValue {
    String(CssString),
    Identifier(Identifier),
    Empty,
}

/// How an attribute selector compares the attribute with its value.
#[derive(Debug, PartialEq, Eq, Structural, Clone, Copy)]
pub enum AttributeMatcher {
    /// `~=`
    IncludeMatch,
    /// `|=`
    DashMatch,
    /// `^=`
    PrefixMatch,
    /// `$=`
    SuffixMatch,
    /// `*=`
    SubstringMatch,
    /// `=`
    EqualityMatch,
}

impl View for AttributeMatcher {
    type V = AttributeMatcher;

    open spec fn view(&self) -> AttributeMatcher {
        *self
    }
}

/// The matcher that a token kind stands for, if any.
pub open spec fn matcher_of(k: TokenType) -> Option<AttributeMatcher> {
    match k {
        TokenType::IncludeMatch => Some(AttributeMatcher::IncludeMatch),
        TokenType::DashMatch => Some(AttributeMatcher::DashMatch),
        TokenType::PrefixMatch => Some(AttributeMatcher::PrefixMatch),
        TokenType::SuffixMatch => Some(AttributeMatcher::SuffixMatch),
        TokenType::SubstringMatch => Some(AttributeMatcher::SubstringMatch),
        TokenType::Equal => Some(AttributeMatcher::EqualityMatch),
        _ => None,
    }
}

/// An attribute selector: `[name]`, or `[name op "value" flag?]`.
#[derive(Debug, PartialEq)]
pub struct AttributeSelector {
    pub name: Identifier,
    pub matcher: Option<AttributeMatcher>,
    pub value: Option<CssString>,
    pub flag: Option<Identifier>,
}

impl View for AttributeSelector {
    type V = AttributeV;

    open spec fn view(&self) -> AttributeV {
        AttributeV {
            name: self.name@,
            matcher: self.matcher,
            value: match self.value {
                Some(v) => Some(v@),
                None => None,
            },
            flag: match self.flag {
                Some(f) => Some(f@),
                None => None,
            },
        }
    }
}

/// An id selector, `#name`.
#[derive(Debug, PartialEq)]
pub struct IdSelector {
    name: String,
}

impl View for IdSelector {
    type V = Seq<char>;

    closed spec fn view(&self) -> Seq<char> {
        self.name@
    }
}

impl Default for IdSelector {
    fn default() -> (r: IdSelector)
        ensures
            r@ == Seq::<char>::empty(),
    {
        IdSelector::new(String::new())
    }
}

impl IdSelector {
    pub fn new(name: String) -> (r: IdSelector)
        ensures
            r@ == name@,
    {
        IdSelector { name }
    }
}

/// A class selector, `.name`.
#[derive(Debug, PartialEq)]
pub struct ClassSelector {
    name: String,
}

impl View for ClassSelector {
    type V = Seq<char>;

    closed spec fn view(&self) -> Seq<char> {
        self.name@
    }
}

impl Default for ClassSelector {
    fn default() -> (r: ClassSelector)
        ensures
            r@ == Seq::<char>::empty(),
    {
        ClassSelector::new(String::new())
    }
}

impl ClassSelector {
    pub fn new(name: String) -> (r: ClassSelector)
        ensures
            r@ == name@,
    {
        ClassSelector { name }
    }
}

/// A type selector, an element name.
#[derive(Debug, PartialEq)]
pub struct TypeSelector {
    name: String,
}

impl View for TypeSelector {
    type V = Seq<char>;

    closed spec fn view(&self) -> Seq<char> {
        self.name@
    }
}

impl TypeSelector {
    pub fn new(name: String) -> (r: TypeSelector)
        ensures
            r@ == name@,
    {
        TypeSelector { name }
    }
}

/// The nesting selector, `&`.
#[derive(Debug, PartialEq)]
pub struct NestingSelector;

#[derive(Debug, PartialEq)]
pub enum BlockChild {
    Rule(Rule),
    AtRule(AtRule),
    DeclarationList(DeclarationList),
}

impl View for BlockChild {
    type V = BlockChildV;

    open spec fn view(&self) -> BlockChildV {
        match self {
            BlockChild::Rule(_) => BlockChildV::Rule,
            BlockChild::AtRule(_) => BlockChildV::AtRule,
            BlockChild::DeclarationList(d) => BlockChildV::DeclarationList(d@),
        }
    }
}

/// The contents of `{ ... }`.
#[derive(Debug, PartialEq)]
pub struct Block {
    children: Vec<BlockChild>,
}

impl View for Block {
    type V = Seq<BlockChildV>;

    closed spec fn view(&self) -> Seq<BlockChildV> {
        self.children@.map_values(|c: BlockChild| c@)
    }
}

impl Default for Block {
    fn default() -> (r: Block)
        ensures
            r@ == Seq::<BlockChildV>::empty(),
    {
        let b = Block::new(Vec::new());
        assert(b@ =~= Seq::<BlockChildV>::empty());
        b
    }
}

impl Block {
    pub fn new(children: Vec<BlockChild>) -> (r: Block)
        ensures
            r@ == children@.map_values(|c: BlockChild| c@),
    {
        Block { children }
    }

    pub fn add_child(&mut self, child: BlockChild)
        ensures
            final(self)@ == old(self)@.push(child@),
    {
        self.children.push(child);
        assert(self@ =~= old(self)@.push(child@));
    }
}

/// An identifier.
#[derive(Debug, PartialEq)]
pub struct Identifier {
    name: String,
}

impl View for Identifier {
    type V = Seq<char>;

    closed spec fn view(&self) -> Seq<char> {
        self.name@
    }
}

impl Default for Identifier {
    fn default() -> (r: Identifier)
        ensures
            r@ == Seq::<char>::empty(),
    {
        Identifier::new(String::new())
    }
}

impl Identifier {
    pub fn new(name: String) -> (r: Identifier)
        ensures
            r@ == name@,
    {
        Identifier { name }
    }

    pub fn from_str(name: &str) -> (r: Identifier)
        ensures
            r@ == name@,
    {
        Identifier { name: name.to_owned() }
    }
}

#[derive(Debug, PartialEq)]
pub struct CDC;

#[derive(Debug, PartialEq)]
pub struct CDO;

#[derive(Debug, PartialEq)]
pub struct Combinator {
    name: String,
}

/// `property: value [!important];`
#[derive(Debug, PartialEq)]
pub struct Declaration {
    pub important: bool,
    pub property: String,
    pub value: ValueList,
}

impl View for Declaration {
    type V = DeclarationV;

    open spec fn view(&self) -> DeclarationV {
        DeclarationV { property: self.property@, value: self.value@, important: self.important }
    }
}

impl Default for Declaration {
    /// A declaration with no property, no values, and not important.
    fn default() -> (r: Declaration)
        ensures
            r@ == (DeclarationV {
                property: Seq::empty(),
                value: Seq::empty(),
                important: false,
            }),
    {
        Declaration { important: false, property: String::new(), value: ValueList::default() }
    }
}

impl Declaration {
    /// A declaration that is not `!important`.
    pub fn new(property: String, value: ValueList) -> (r: Declaration)
        ensures
            r@ == (DeclarationV { property: property@, value: value@, important: false }),
    {
        Declaration { important: false, property, value }
    }

    pub fn set_important_as(&mut self, important: bool)
        ensures
            final(self)@ == (DeclarationV { important, ..old(self)@ }),
    {
        self.important = important;
    }

    pub fn set_property(&mut self, property: String)
        ensures
            final(self)@ == (DeclarationV { property: property@, ..old(self)@ }),
    {
        self.property = property;
    }

    pub fn set_value(&mut self, value: ValueList)
        ensures
            final(self)@ == (DeclarationV { value: value@, ..old(self)@ }),
    {
        self.value = value;
    }
}

/// Declarations in source order.
#[derive(Debug, PartialEq)]
pub struct DeclarationList {
    children: Vec<Declaration>,
}

impl View for DeclarationList {
    type V = Seq<DeclarationV>;

    closed spec fn view(&self) -> Seq<DeclarationV> {
        self.children@.map_values(|d: Declaration| d@)
    }
}

impl Default for DeclarationList {
    fn default() -> (r: DeclarationList)
        ensures
            r@ == Seq::<DeclarationV>::empty(),
    {
        let d = DeclarationList::new(Vec::new());
        assert(d@ =~= Seq::<DeclarationV>::empty());
        d
    }
}

impl DeclarationList {
    pub fn new(children: Vec<Declaration>) -> (r: DeclarationList)
        ensures
            r@ == children@.map_values(|d: Declaration| d@),
    {
        DeclarationList { children }
    }

    pub fn add_child(&mut self, child: Declaration)
        ensures
            final(self)@ == old(self)@.push(child@),
    {
        self.children.push(child);
        assert(self@ =~= old(self)@.push(child@));
    }
}

/// A number with an optional unit.
#[derive(Debug, PartialEq)]
pub struct Dimension {
    value: String,
    unit: Option<String>,
}

impl View for Dimension {
    type V = (Seq<char>, Option<Seq<char>>);

    closed spec fn view(&self) -> (Seq<char>, Option<Seq<char>>) {
        (self.value@, opt_string_view(self.unit))
    }
}

impl Default for Dimension {
    fn default() -> (r: Dimension)
        ensures
            r@ == (Seq::<char>::empty(), None::<Seq<char>>),
    {
        Dimension::new(String::new(), None)
    }
}

impl Dimension {
    pub fn new(value: String, unit: Option<String>) -> (r: Dimension)
        ensures
            r@ == (value@, opt_string_view(unit)),
    {
        Dimension { value, unit }
    }
}

#[derive(Debug, PartialEq)]
pub enum MediaFeatureValue {
    Identifier(Identifier),
    Number(CssNumber),
    Dimension(Dimension),
    Ratio(Ratio),
    Function(Function),
}

#[derive(Debug, PartialEq)]
pub struct MediaFeature {
    name: String,
    value: Option<MediaFeatureValue>,
}

#[derive(Debug, PartialEq)]
pub enum FunctionChild {
    Identifier(Identifier),
    Operator(Operator),
    Percentage(Percentage),
}

#[derive(Debug, PartialEq)]
pub struct Function {
    name: String,
    children: Vec<FunctionChild>,
}

#[derive(Debug, PartialEq)]
pub struct Hash {
    value: String,
}

#[derive(Debug, PartialEq)]
pub struct Layer {
    name: String,
}

#[derive(Debug, PartialEq)]
pub struct LayerList {
    children: Vec<Layer>,
}

#[derive(Debug, PartialEq)]
pub enum MediaQueryChild {
    Identifier(Identifier),
    MediaFeature(MediaFeature),
}

#[derive(Debug, PartialEq)]
pub struct MediaQuery {
    children: Vec<MediaQueryChild>,
}

#[derive(Debug, PartialEq)]
pub struct MediaQueryList {
    children: Vec<MediaQuery>,
}

#[derive(Debug, PartialEq)]
pub enum NthValue {
    AnPlusB(AnPlusB),
    Identifier(Identifier),
}

#[derive(Debug, PartialEq)]
pub struct Nth {
    nth: NthValue,
    selector: Option<SelectorList>,
}

#[derive(Debug, PartialEq)]
pub struct CssNumber {
    value: String,
}

/// A string literal's contents, without its quotes.
#[derive(Debug, PartialEq)]
pub struct CssString {
    value: String,
}

impl View for CssString {
    type V = Seq<char>;

    closed spec fn view(&self) -> Seq<char> {
        self.value@
    }
}

impl CssString {
    pub fn new(value: String) -> (r: CssString)
        ensures
            r@ == value@,
    {
        CssString { value }
    }

    pub fn from_str(value: &str) -> (r: CssString)
        ensures
            r@ == value@,
    {
        CssString { value: value.to_owned() }
    }
}

#[derive(Debug, PartialEq)]
pub struct Operator {
    value: String,
}

#[derive(Debug, PartialEq)]
pub struct Percentage {
    value: String,
}

/// A pseudo-class selector.
#[derive(Debug, PartialEq)]
pub struct PseudoClassSelector {
    name: String,
    children: Option<SelectorList>,
}

/// A pseudo-element selector.
#[derive(Debug, PartialEq)]
pub struct PseudoElementSelector {
    name: String,
    children: Option<SelectorList>,
}

#[derive(Debug, PartialEq)]
pub struct Ratio {
    left: CssNumber,
    right: CssNumber,
}

#[derive(Debug, PartialEq)]
pub struct Raw {
    value: String,
}

/// A selector list and its block.
#[derive(Debug, PartialEq)]
pub struct Rule {
    selectors: SelectorList,
    block: Block,
}

impl View for Rule {
    type V = RuleV;

    closed spec fn view(&self) -> RuleV {
        RuleV { selectors: self.selectors@, block: self.block@ }
    }
}

impl Default for Rule {
    fn default() -> (r: Rule)
        ensures
            r@ == (RuleV { selectors: Seq::empty(), block: Seq::empty() }),
    {
        Rule::new(SelectorList::default(), Block::default())
    }
}

impl Rule {
    pub fn new(selectors: SelectorList, block: Block) -> (r: Rule)
        ensures
            r@ == (RuleV { selectors: selectors@, block: block@ }),
    {
        Rule { selectors, block }
    }
}

#[derive(Debug, PartialEq)]
pub enum Selector {
    IdSelector(IdSelector),
    ClassSelector(ClassSelector),
    AttributeSelector(AttributeSelector),
    TypeSelector(TypeSelector),
    NestingSelector(NestingSelector),
}

impl View for Selector {
    type V = SelectorV;

    open spec fn view(&self) -> SelectorV {
        match self {
            Selector::IdSelector(s) => SelectorV::Id(s@),
            Selector::ClassSelector(s) => SelectorV::Class(s@),
            Selector::AttributeSelector(s) => SelectorV::Attribute(s@),
            Selector::TypeSelector(s) => SelectorV::Type(s@),
            Selector::NestingSelector(_) => SelectorV::Nesting,
        }
    }
}

/// Selectors in source order.
#[derive(Debug, PartialEq)]
pub struct SelectorList {
    children: Vec<Selector>,
}

impl View for SelectorList {
    type V = Seq<SelectorV>;

    closed spec fn view(&self) -> Seq<SelectorV> {
        self.children@.map_values(|s: Selector| s@)
    }
}

impl Default for SelectorList {
    fn default() -> (r: SelectorList)
        ensures
            r@ == Seq::<SelectorV>::empty(),
    {
        let l = SelectorList::new(Vec::new());
        assert(l@ =~= Seq::<SelectorV>::empty());
        l
    }
}

impl SelectorList {
    pub fn new(children: Vec<Selector>) -> (r: SelectorList)
        ensures
            r@ == children@.map_values(|s: Selector| s@),
    {
        SelectorList { children }
    }

    pub fn add_child(&mut self, selector: Selector)
        ensures
            final(self)@ == old(self)@.push(selector@),
    {
        self.children.push(selector);
        assert(self@ =~= old(self)@.push(selector@));
    }
}

/// Used for the Unicode-Range microsyntax.
#[derive(Debug, PartialEq)]
pub struct UnicodeRange {
    value: String,
}

#[derive(Debug, PartialEq)]
pub struct Url {
    value: String,
}

#[derive(Debug, PartialEq)]
pub enum Value {
    Dimension(Dimension),
    Identifier(Identifier),
    Function(Function),
}

impl View for Value {
    type V = ValueV;

    open spec fn view(&self) -> ValueV {
        match self {
            Value::Dimension(d) => ValueV::Dimension(d@.0, d@.1),
            Value::Identifier(i) => ValueV::Identifier(i@),
            Value::Function(_) => ValueV::Function,
        }
    }
}

/// Values in source order.
#[derive(Debug, PartialEq)]
pub struct ValueList {
    pub children: Vec<Value>,
}

impl View for ValueList {
    type V = Seq<ValueV>;

    open spec fn view(&self) -> Seq<ValueV> {
        self.children@.map_values(|v: Value| v@)
    }
}

impl Default for ValueList {
    fn default() -> (r: ValueList)
        ensures
            r@ == Seq::<ValueV>::empty(),
    {
        let l = ValueList::new(Vec::new());
        assert(l@ =~= Seq::<ValueV>::empty());
        l
    }
}

impl ValueList {
    pub fn new(children: Vec<Value>) -> (r: ValueList)
        ensures
            r@ == children@.map_values(|v: Value| v@),
    {
        ValueList { children }
    }

    pub fn add_child(&mut self, child: Value)
        ensures
            final(self)@ == old(self)@.push(child@),
    {
        self.children.push(child);
        assert(self@ =~= old(self)@.push(child@));
    }
}

#[derive(Debug, PartialEq)]
pub enum StyleSheetRule {
    AtRule(AtRule),
    Rule(Rule),
}

impl View for StyleSheetRule {
    type V = StyleSheetRuleV;

    open spec fn view(&self) -> StyleSheetRuleV {
        match self {
            StyleSheetRule::AtRule(_) => StyleSheetRuleV::AtRule,
            StyleSheetRule::Rule(r) => StyleSheetRuleV::Rule(r@),
        }
    }
}

/// The root of the tree: its rules in source order.
#[derive(Debug, PartialEq)]
pub struct StyleSheet {
    pub children: Vec<StyleSheetRule>,
}

impl View for StyleSheet {
    type V = Seq<StyleSheetRuleV>;

    open spec fn view(&self) -> Seq<StyleSheetRuleV> {
        self.children@.map_values(|r: StyleSheetRule| r@)
    }
}

impl Default for StyleSheet {
    fn default() -> (r: StyleSheet)
        ensures
            r@ == Seq::<StyleSheetRuleV>::empty(),
    {
        let s = StyleSheet::new(Vec::new());
        assert(s@ =~= Seq::<StyleSheetRuleV>::empty());
        s
    }
}

impl StyleSheet {
    pub fn new(children: Vec<StyleSheetRule>) -> (r: StyleSheet)
        ensures
            r@ == children@.map_values(|r: StyleSheetRule| r@),
    {
        StyleSheet { children }
    }
}

} // verus!
