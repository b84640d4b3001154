//! The language servers that `:lsp install` and `:lsp doctor` know.
use vstd::prelude::*;

verus! {

/// A language server setup recipe: its id, a title, and other names it answers to.
pub struct Recipe {
    pub id: &'static str,
    pub title: &'static str,
    pub aliases: Vec<&'static str>,
}

pub struct RecipeV {
    pub id: Seq<char>,
    pub title: Seq<char>,
    pub aliases: Seq<Seq<char>>,
}

impl View for Recipe {
    type V = RecipeV;

    open spec fn view(&self) -> RecipeV {
        RecipeV {
            id: self.id@,
            title: self.title@,
            aliases: self.aliases@.map_values(|a: &'static str| a@),
        }
    }
}

pub open spec fn recipes_view(rs: Seq<Recipe>) -> Seq<RecipeV> {
    rs.map_values(|r: Recipe| r@)
}

/// The known recipes, in the order they are offered.
pub open spec fn spec_recipes() -> Seq<RecipeV> {
    seq![
        RecipeV { id: "rust"@, title: "Rust · rust-analyzer"@, aliases: seq!["rust-analyzer"@, "rs"@] },
        RecipeV { id: "cpp"@, title: "C and C++ · clangd"@, aliases: seq!["clangd"@, "c"@, "c++"@] },
        RecipeV { id: "csharp"@, title: "C# and Unity · csharp-ls"@, aliases: seq!["csharp-ls"@, "unity"@, "cs"@] },
        RecipeV { id: "python"@, title: "Python · pyright"@, aliases: seq!["pyright"@, "py"@] },
        RecipeV { id: "typescript"@, title: "JavaScript and TypeScript · typescript-language-server"@, aliases: seq!["javascript"@, "js"@, "ts"@, "tsx"@, "jsx"@] },
        RecipeV { id: "java"@, title: "Java · jdtls"@, aliases: seq!["jdtls"@] },
        RecipeV { id: "php"@, title: "PHP · intelephense"@, aliases: seq!["intelephense"@] },
        RecipeV { id: "shell"@, title: "Shell · bash-language-server"@, aliases: seq!["bash"@, "sh"@, "shellscript"@] },
        RecipeV { id: "lua"@, title: "Lua and Luau · lua-language-server"@, aliases: seq!["luau"@, "lua-language-server"@] },
        RecipeV { id: "html"@, title: "HTML · vscode-html-language-server"@, aliases: seq![] },
        RecipeV { id: "css"@, title: "CSS · vscode-css-language-server"@, aliases: seq![] },
        RecipeV { id: "json"@, title: "JSON · vscode-json-language-server"@, aliases: seq!["jsonc"@] },
        RecipeV { id: "yaml"@, title: "YAML · yaml-language-server"@, aliases: seq!["yml"@] },
        RecipeV { id: "toml"@, title: "TOML · taplo"@, aliases: seq!["taplo"@] },
        RecipeV { id: "sql"@, title: "SQL · sqls"@, aliases: seq!["sqls"@] },
    ]
}

fn recipe(id: &'static str, title: &'static str, aliases: Vec<&'static str>) -> (r: Recipe)
    ensures
        r.id == id,
        r.title == title,
        r.aliases == aliases,
{
    Recipe { id, title, aliases }
}

pub fn recipes() -> (r: Vec<Recipe>)
    ensures
        recipes_view(r@) == spec_recipes(),
{
    let mut r: Vec<Recipe> = Vec::new();
    {
        let mut aliases: Vec<&'static str> = Vec::new();
        aliases.push("rust-analyzer");
        aliases.push("rs");
        assert(aliases@.map_values(|a: &'static str| a@) =~= seq!["rust-analyzer"@, "rs"@]);
        r.push(recipe("rust", "Rust · rust-analyzer", aliases));
    }
    {
        let mut aliases: Vec<&'static str> = Vec::new();
        aliases.push("clangd");
        aliases.push("c");
        aliases.push("c++");
        assert(aliases@.map_values(|a: &'static str| a@) =~= seq!["clangd"@, "c"@, "c++"@]);
        r.push(recipe("cpp", "C and C++ · clangd", aliases));
    }
    {
        let mut aliases: Vec<&'static str> = Vec::new();
        aliases.push("csharp-ls");
        aliases.push("unity");
        aliases.push("cs");
        assert(aliases@.map_values(|a: &'static str| a@) =~= seq!["csharp-ls"@, "unity"@, "cs"@]);
        r.push(recipe("csharp", "C# and Unity · csharp-ls", aliases));
    }
    {
        let mut aliases: Vec<&'static str> = Vec::new();
        aliases.push("pyright");
        aliases.push("py");
        assert(aliases@.map_values(|a: &'static str| a@) =~= seq!["pyright"@, "py"@]);
        r.push(recipe("python", "Python · pyright", aliases));
    }
    {
        let mut aliases: Vec<&'static str> = Vec::new();
        aliases.push("javascript");
        aliases.push("js");
        aliases.push("ts");
        aliases.push("tsx");
        aliases.push("jsx");
        assert(aliases@.map_values(|a: &'static str| a@) =~= seq!["javascript"@, "js"@, "ts"@, "tsx"@, "jsx"@]);
        r.push(recipe("typescript", "JavaScript and TypeScript · typescript-language-server", aliases));
    }
    {
        let mut aliases: Vec<&'static str> = Vec::new();
        aliases.push("jdtls");
        assert(aliases@.map_values(|a: &'static str| a@) =~= seq!["jdtls"@]);
        r.push(recipe("java", "Java · jdtls", aliases));
    }
    {
        let mut aliases: Vec<&'static str> = Vec::new();
        aliases.push("intelephense");
        assert(aliases@.map_values(|a: &'static str| a@) =~= seq!["intelephense"@]);
        r.push(recipe("php", "PHP · intelephense", aliases));
    }
    {
        let mut aliases: Vec<&'static str> = Vec::new();
        aliases.push("bash");
        aliases.push("sh");
        aliases.push("shellscript");
        assert(aliases@.map_values(|a: &'static str| a@) =~= seq!["bash"@, "sh"@, "shellscript"@]);
        r.push(recipe("shell", "Shell · bash-language-server", aliases));
    }
    {
        let mut aliases: Vec<&'static str> = Vec::new();
        aliases.push("luau");
        aliases.push("lua-language-server");
        assert(aliases@.map_values(|a: &'static str| a@) =~= seq!["luau"@, "lua-language-server"@]);
        r.push(recipe("lua", "Lua and Luau · lua-language-server", aliases));
    }
    {
        let mut aliases: Vec<&'static str> = Vec::new();
        assert(aliases@.map_values(|a: &'static str| a@) =~= seq![]);
        r.push(recipe("html", "HTML · vscode-html-language-server", aliases));
    }
    {
        let mut aliases: Vec<&'static str> = Vec::new();
        assert(aliases@.map_values(|a: &'static str| a@) =~= seq![]);
        r.push(recipe("css", "CSS · vscode-css-language-server", aliases));
    }
    {
        let mut aliases: Vec<&'static str> = Vec::new();
        aliases.push("jsonc");
        assert(aliases@.map_values(|a: &'static str| a@) =~= seq!["jsonc"@]);
        r.push(recipe("json", "JSON · vscode-json-language-server", aliases));
    }
    {
        let mut aliases: Vec<&'static str> = Vec::new();
        aliases.push("yml");
        assert(aliases@.map_values(|a: &'static str| a@) =~= seq!["yml"@]);
        r.push(recipe("yaml", "YAML · yaml-language-server", aliases));
    }
    {
        let mut aliases: Vec<&'static str> = Vec::new();
        aliases.push("taplo");
        assert(aliases@.map_values(|a: &'static str| a@) =~= seq!["taplo"@]);
        r.push(recipe("toml", "TOML · taplo", aliases));
    }
    {
        let mut aliases: Vec<&'static str> = Vec::new();
        aliases.push("sqls");
        assert(aliases@.map_values(|a: &'static str| a@) =~= seq!["sqls"@]);
        r.push(recipe("sql", "SQL · sqls", aliases));
    }
    assert(recipes_view(r@) =~= spec_recipes());
    r
}

} // verus!
