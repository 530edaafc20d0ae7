//! The lines the older commands print: a tag such as `[CREATE]` and a
//! message. The lines are recorded in an [`OutputLog`]; whoever owns the log
//! writes them to standard error, colouring the tag.

use vstd::prelude::*;

use crate::mode::DeployType;
use crate::text::push_char;

verus! {

/// The tag that starts a printed line.
#[derive(Debug, Clone, Copy, PartialEq, Eq, Structural)]
pub enum Tag {
    Create,
    Remove,
    Managed,
    Unmanaged,
    Warn,
    Done,
    Created,
    Removed,
    Added,
    Summary,
}

/// The text of a tag, brackets included.
pub open spec fn tag_text(tag: Tag) -> Seq<char> {
    match tag {
        Tag::Create => "[CREATE]"@,
        Tag::Remove => "[REMOVE]"@,
        Tag::Managed => "[MANAGED]"@,
        Tag::Unmanaged => "[UNMANAGED]"@,
        Tag::Warn => "[WARN]"@,
        Tag::Done => "[OK]"@,
        Tag::Created => "[CREATED]"@,
        Tag::Removed => "[REMOVED]"@,
        Tag::Added => "[ADDED]"@,
        Tag::Summary => "[SUMMARY]"@,
    }
}

impl Tag {
    /// The text of the tag, brackets included.
    pub fn text(self) -> (res: &'static str)
        ensures
            res@ == tag_text(self),
    {
        match self {
            Tag::Create => "[CREATE]",
            Tag::Remove => "[REMOVE]",
            Tag::Managed => "[MANAGED]",
            Tag::Unmanaged => "[UNMANAGED]",
            Tag::Warn => "[WARN]",
            Tag::Done => "[OK]",
            Tag::Created => "[CREATED]",
            Tag::Removed => "[REMOVED]",
            Tag::Added => "[ADDED]",
            Tag::Summary => "[SUMMARY]",
        }
    }
}

/// One printed line: its tag and the message after it.
#[derive(Debug)]
pub struct OutputLine {
    pub tag: Tag,
    pub message: String,
}

impl OutputLine {
    /// The line as printed without colour: the tag, a space, the message.
    pub fn render(&self) -> (res: String)
        ensures
            res@ == tag_text(self.tag) + seq![' '] + self.message@,
    {
        let mut res = String::new();
        res.append(self.tag.text());
        push_char(&mut res, ' ');
        res.append(self.message.as_str());
        res
    }
}

/// The lines printed so far, in order.
#[derive(Debug)]
pub struct OutputLog {
    lines: Vec<OutputLine>,
}

impl View for OutputLog {
    type V = Seq<(Tag, Seq<char>)>;

    closed spec fn view(&self) -> Seq<(Tag, Seq<char>)> {
        Seq::new(self.lines@.len(), |i: int| (self.lines@[i].tag, self.lines@[i].message@))
    }
}

impl OutputLog {
    /// A log with no lines.
    pub fn new() -> (res: OutputLog)
        ensures
            res@ == Seq::<(Tag, Seq<char>)>::empty(),
    {
        OutputLog { lines: Vec::new() }
    }

    /// Records one line.
    pub fn record(&mut self, tag: Tag, message: String)
        ensures
            final(self)@ == old(self)@.push((tag, message@)),
    {
        self.lines.push(OutputLine { tag, message });
        proof {
            assert(final(self)@ =~= old(self)@.push((tag, message@)));
        }
    }

    /// The recorded lines, in order.
    pub fn lines(&self) -> (res: &Vec<OutputLine>)
        ensures
            res@.len() == self@.len(),
            forall|i: int| 0 <= i < res@.len() ==> (#[trigger] res@[i]).tag == self@[i].0 && res@[i].message@
                == self@[i].1,
    {
        &self.lines
    }
}

/// The word naming a deploy type in `(…)` after a portal.
pub open spec fn deploy_type_label_text(t: DeployType) -> Seq<char> {
    match t {
        DeployType::Symlink => "symlink"@,
        DeployType::Copy => "file"@,
        DeployType::Template => "tmpl"@,
    }
}

/// The word naming a deploy type after a portal.
pub fn deploy_type_label(t: DeployType) -> (res: &'static str)
    ensures
        res@ == deploy_type_label_text(t),
{
    match t {
        DeployType::Symlink => "symlink",
        DeployType::Copy => "file",
        DeployType::Template => "tmpl",
    }
}

/// `target -> source (label)`.
pub open spec fn portal_text(target: Seq<char>, source: Seq<char>, t: DeployType) -> Seq<char> {
    target + " -> "@ + source + " ("@ + deploy_type_label_text(t) + ")"@
}

/// Describes a deployed portal: `target -> source (label)`.
pub fn portal_str(target: &str, source: &str, deploy_type: DeployType) -> (res: String)
    ensures
        res@ == portal_text(target@, source@, deploy_type),
{
    let mut res = String::new();
    res.append(target);
    res.append(" -> ");
    res.append(source);
    res.append(" (");
    res.append(deploy_type_label(deploy_type));
    res.append(")");
    res
}

/// `[CREATE] path`: a dry run would create this directory.
pub fn print_dry_create_dir(log: &mut OutputLog, path: &str)
    ensures
        final(log)@ == old(log)@.push((Tag::Create, path@)),
{
    log.record(Tag::Create, path.to_string());
}

/// `[CREATE] target -> source (label)`: a dry run would deploy this file.
pub fn print_dry_create_file(log: &mut OutputLog, target: &str, source: &str, deploy_type: DeployType)
    ensures
        final(log)@ == old(log)@.push((Tag::Create, portal_text(target@, source@, deploy_type))),
{
    log.record(Tag::Create, portal_str(target, source, deploy_type));
}

/// `[REMOVE] path`: a dry run would remove this path.
pub fn print_dry_remove(log: &mut OutputLog, path: &str)
    ensures
        final(log)@ == old(log)@.push((Tag::Remove, path@)),
{
    log.record(Tag::Remove, path.to_string());
}

/// `[MANAGED] target -> source (label)`.
pub fn print_managed(log: &mut OutputLog, target: &str, source: &str, deploy_type: DeployType)
    ensures
        final(log)@ == old(log)@.push((Tag::Managed, portal_text(target@, source@, deploy_type))),
{
    log.record(Tag::Managed, portal_str(target, source, deploy_type));
}

/// `[UNMANAGED] target`.
pub fn print_unmanaged(log: &mut OutputLog, target: &str)
    ensures
        final(log)@ == old(log)@.push((Tag::Unmanaged, target@)),
{
    log.record(Tag::Unmanaged, target.to_string());
}

/// `[WARN] message`.
pub fn print_warn(log: &mut OutputLog, msg: &str)
    ensures
        final(log)@ == old(log)@.push((Tag::Warn, msg@)),
{
    log.record(Tag::Warn, msg.to_string());
}

/// `[OK] message`.
pub fn print_ok(log: &mut OutputLog, msg: &str)
    ensures
        final(log)@ == old(log)@.push((Tag::Done, msg@)),
{
    log.record(Tag::Done, msg.to_string());
}

/// `[CREATED] path`: a directory was created.
pub fn print_created_dir(log: &mut OutputLog, path: &str)
    ensures
        final(log)@ == old(log)@.push((Tag::Created, path@)),
{
    log.record(Tag::Created, path.to_string());
}

/// `[CREATED] target -> source (label)`: a file was deployed.
pub fn print_created_file(log: &mut OutputLog, target: &str, source: &str, deploy_type: DeployType)
    ensures
        final(log)@ == old(log)@.push((Tag::Created, portal_text(target@, source@, deploy_type))),
{
    log.record(Tag::Created, portal_str(target, source, deploy_type));
}

/// `[REMOVED] path`.
pub fn print_removed(log: &mut OutputLog, path: &str)
    ensures
        final(log)@ == old(log)@.push((Tag::Removed, path@)),
{
    log.record(Tag::Removed, path.to_string());
}

/// `[ADDED] src -> dest`: a file was taken into the source directory.
pub fn print_added(log: &mut OutputLog, src: &str, dest: &str)
    ensures
        final(log)@ == old(log)@.push((Tag::Added, src@ + " -> "@ + dest@)),
{
    let mut msg = String::new();
    msg.append(src);
    msg.append(" -> ");
    msg.append(dest);
    log.record(Tag::Added, msg);
}

/// `[SUMMARY] message`.
pub fn print_summary(log: &mut OutputLog, msg: &str)
    ensures
        final(log)@ == old(log)@.push((Tag::Summary, msg@)),
{
    log.record(Tag::Summary, msg.to_string());
}

} // verus!
