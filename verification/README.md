# springtime

A dependency injection and application framework core whose logic is verified with Verus.

- `src/` is the verified library: component definition registries and their conditional,
  priority-ordered construction from static declarations; scopes; the component factory's
  decisions (which definition serves a request, scope reuse, dependency cycles, unknown
  scopes); typed access to instances; application runner ordering; configuration defaults and
  providers; migration and web-server decisions; and how components and controllers are
  derived from their declarations (the items of their attributes, the shapes of their field
  and parameter types, the text of constructor parameters).
  Component types are identified by numeric keys and instances by numeric handles.
- `app/` is the runtime around it: type-erased instances, registration through `inventory`,
  configuration files and environment variables, the tracing logger, `axum` servers and
  `refinery` migration runs.
- `tests/` exercises the library from outside.
