use vstd::prelude::*;

use vstd::string::StringExecFns;

use crate::document::{generate_workcell, generated_from, is_workcell, Generated, WorkcellGenerationError};
use crate::scene::Scene;

verus! {

/// The file format a workcell is saved in.
#[derive(Clone, Copy, Debug, PartialEq, Eq, Structural)]
pub enum ExportFormat {
    /// The workcell document itself.
    Default,
    /// A robot-description package.
    Urdf,
}

/// A request to save the workcell under `root` to `to_file`.
pub struct SaveWorkcell {
    pub root: usize,
    pub to_file: String,
    pub format: ExportFormat,
}

pub struct Person {
    pub name: String,
    pub email: String,
}

/// The metadata handed to the robot-description package generator.
pub struct PackageContext {
    pub license: String,
    pub maintainers: Vec<Person>,
    pub project_name: String,
    pub fixed_frame: String,
    pub dependencies: Vec<String>,
    pub project_description: String,
    pub project_version: String,
    pub urdf_file_name: String,
}

/// What to do for one save request.
pub enum SaveAction {
    /// The root is not a workcell; nothing is written.
    Skip(WorkcellGenerationError),
    /// Write the document to the file at `path`.
    WriteFile { path: String, generated: Generated },
    /// Generate a robot-description package into `directory`.
    ExportPackage { directory: String, generated: Generated, context: PackageContext },
}

pub open spec fn placeholder() -> Seq<char> {
    "TODO"@
}

/// The package metadata for a workcell named `name`.
pub open spec fn context_for(c: PackageContext, name: Seq<char>) -> bool {
    &&& c.project_name@ == name + "_description"@
    &&& c.fixed_frame@ == "world"@
    &&& c.urdf_file_name@ == "robot.urdf"@
    &&& c.project_version@ == "0.0.1"@
    &&& c.dependencies@.len() == 0
    &&& c.license@ == placeholder()
    &&& c.project_description@ == placeholder()
    &&& c.maintainers@.len() == 1
    &&& c.maintainers@[0].name@ == placeholder()
    &&& c.maintainers@[0].email@ == "todo@todo.com"@
}

/// `a` is what saving the workcell for request `req` comes to.
pub open spec fn planned(s: Seq<crate::scene::Node>, req: SaveWorkcell, a: SaveAction) -> bool {
    let root = req.root as int;
    match a {
        SaveAction::Skip(err) => !is_workcell(s, root) && err
            == WorkcellGenerationError::InvalidWorkcellEntity(req.root),
        SaveAction::WriteFile { path, generated } => is_workcell(s, root) && req.format
            == ExportFormat::Default && path@ == req.to_file@ && generated_from(s, root, generated),
        SaveAction::ExportPackage { directory, generated, context } => is_workcell(s, root)
            && req.format == ExportFormat::Urdf && directory@ == req.to_file@ && generated_from(
            s,
            root,
            generated,
        ) && context_for(context, s[root].workcell_name.unwrap()@),
    }
}

/// The package metadata for a workcell named `name`; the free-text fields
/// are placeholders.
pub fn package_context(name: &String) -> (c: PackageContext)
    ensures
        context_for(c, name@),
{
    let placeholder_text = "TODO";
    proof {
        reveal_strlit("TODO");
    }
    let mut maintainers: Vec<Person> = Vec::new();
    maintainers.push(
        Person {
            name: String::from_str(placeholder_text),
            email: String::from_str("todo@todo.com"),
        },
    );
    PackageContext {
        license: String::from_str(placeholder_text),
        maintainers,
        project_name: name.clone().concat("_description"),
        fixed_frame: String::from_str("world"),
        dependencies: Vec::new(),
        project_description: String::from_str(placeholder_text),
        project_version: String::from_str("0.0.1"),
        urdf_file_name: String::from_str("robot.urdf"),
    }
}

/// Decides what saving the workcell for `req` comes to: a skipped request when
/// the root is not a workcell, else the generated document, headed for a file
/// or for a robot-description package.
pub fn plan_save(scene: &Scene, req: &SaveWorkcell) -> (a: SaveAction)
    requires
        scene.wf(),
        scene.nodes@.len() <= u32::MAX,
    ensures
        planned(scene.nodes@, *req, a),
{
    match generate_workcell(scene, req.root) {
        Err(err) => SaveAction::Skip(err),
        Ok(generated) => {
            let path = req.to_file.clone();
            match req.format {
                ExportFormat::Default => SaveAction::WriteFile { path, generated },
                ExportFormat::Urdf => {
                    let context = package_context(&generated.document.name);
                    SaveAction::ExportPackage { directory: path, generated, context }
                },
            }
        },
    }
}

/// Plans a batch of save requests. Each request gets its own action, decided
/// by that request alone, so one that fails does not hold up the others.
pub fn save_workcell(scene: &Scene, requests: &Vec<SaveWorkcell>) -> (actions: Vec<SaveAction>)
    requires
        scene.wf(),
        scene.nodes@.len() <= u32::MAX,
    ensures
        actions@.len() == requests@.len(),
        forall|i: int|
            0 <= i < requests@.len() ==> planned(scene.nodes@, requests@[i], #[trigger] actions@[i]),
{
    let mut actions: Vec<SaveAction> = Vec::new();
    let mut i: usize = 0;
    while i < requests.len()
        invariant
            scene.wf(),
            scene.nodes@.len() <= u32::MAX,
            i <= requests@.len(),
            actions@.len() == i,
            forall|j: int|
                0 <= j < i ==> planned(scene.nodes@, requests@[j], #[trigger] actions@[j]),
        decreases requests@.len() - i,
    {
        let action = plan_save(scene, &requests[i]);
        actions.push(action);
        i = i + 1;
    }
    actions
}

} // verus!
